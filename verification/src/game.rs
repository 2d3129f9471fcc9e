//! The match-level state machine: turn order, dice, the doubling cube, and
//! the batched application of moves.

use vstd::prelude::*;

use crate::board::{
    borne_after, count_points, empty_points, has_any_move, initial_points,
    lemma_count_all_absent, lemma_count_update, occupied, points_after, valid_from, valid_move,
    Board, Move, Point,
};
use crate::color::{bar_index_of, is_side, opponent_of, slot_of, Color, Die};
use crate::error::BackgammonError;
use vstd::pervasive::unreached;

verus! {

/// The finite lifecycle of a match.
#[derive(Clone, Copy, Debug, PartialEq, Eq, Structural)]
pub enum GameState {
    /// Pre-match; only initialization is legal.
    Uninitialized,
    /// Match begun; the opening roll is in progress.
    Started,
    /// The side in `turn` must either request a double or roll.
    DoubleOrRoll,
    /// Dice are set for the side in `turn`; only move application is legal.
    Rolled,
    /// A double was requested; only the opponent's response is legal.
    Doubled,
    /// Terminal; `winner` holds the match winner.
    Finished,
}

/// A capability that produces one die face on demand.  The engine imposes no
/// fairness requirement; it only consumes faces in the documented order, so a
/// deterministic source makes its behavior reproducible.
pub trait RandomDice {
    /// Produce one die face.
    fn generate(&mut self) -> (d: Die)
        ensures
            1 <= d <= 6,
    ;
}

/// A deterministic dice source that replays a fixed script of faces, then
/// repeats 1 forever; out-of-range entries are read as 1.
pub struct ScriptedDice {
    pub values: Vec<u8>,
    pub next: usize,
}

impl ScriptedDice {
    /// A source that replays `values` from the start.
    pub fn new(values: Vec<u8>) -> (r: ScriptedDice)
        ensures
            r.values == values,
            r.next == 0,
    {
        ScriptedDice { values, next: 0 }
    }
}

impl RandomDice for ScriptedDice {
    fn generate(&mut self) -> (d: Die)
        ensures
            final(self).values == old(self).values,
            old(self).next < old(self).values@.len() ==> final(self).next == old(self).next + 1,
            d == (if old(self).next < old(self).values@.len() && 1 <= old(self).values@[old(
                self,
            ).next as int] <= 6 {
                old(self).values@[old(self).next as int]
            } else {
                1
            }),
    {
        let d = if self.next < self.values.len() {
            self.values[self.next]
        } else {
            1
        };
        if self.next < usize::MAX {
            self.next = self.next + 1;
        }
        if d >= 1 && d <= 6 {
            d
        } else {
            1
        }
    }
}

/// A full match record.  Identities are opaque 32-byte values; the host owns
/// the mapping from real credentials to them.
#[derive(Clone, Debug, PartialEq)]
pub struct Game {
    pub game_id: u64,
    pub state: GameState,
    pub white_identity: [u8; 32],
    pub black_identity: [u8; 32],
    /// Whose turn it is; `Neither` until the opening roll is decided.
    pub turn: Color,
    /// Set exactly when the match is `Finished`.
    pub winner: Color,
    /// The two dice; 0 means unset or spent.
    pub dice: [Die; 2],
    /// The doubling-cube stake multiplier: a power of two, capped at 64.
    pub multiplier: u8,
    /// The last accepted move batch.
    pub last_moves: [Move; 4],
    /// Who used the cube last; that side cannot double again in a row.
    pub last_doubled: Color,
    pub board: Board,
    /// Cached legal-move count for the current roll, for client hinting.
    pub max_moves: u8,
    /// For a non-double roll: the opening half-moves that keep the second die
    /// playable.
    pub first_moves: Vec<Move>,
}

/// The multiplier values the doubling cube can show.
pub open spec fn is_cube_value(m: u8) -> bool {
    m == 1 || m == 2 || m == 4 || m == 8 || m == 16 || m == 32 || m == 64
}

/// The side may double right now: it is its turn to double or roll, it was
/// not the last side to use the cube, and the cube is below its cap.
pub open spec fn can_double_spec(g: Game, player: Color) -> bool {
    &&& g.state == GameState::DoubleOrRoll
    &&& g.turn == player
    &&& g.last_doubled != player
    &&& g.multiplier != 64
}

/// The color a 32-byte identity resolves to, White taking precedence.
pub open spec fn color_of_identity(g: Game, identity: Seq<u8>) -> Color {
    if g.white_identity@ == identity {
        Color::White
    } else if g.black_identity@ == identity {
        Color::Black
    } else {
        Color::Neither
    }
}

/// Byte-wise equality of two identities.
fn identity_eq(a: &[u8; 32], b: &[u8; 32]) -> (r: bool)
    ensures
        r == (a@ == b@),
{
    let mut i: usize = 0;
    while i < 32
        invariant
            i <= 32,
            forall|j: int| 0 <= j < i ==> a@[j] == b@[j],
        decreases 32 - i,
    {
        if a[i] != b[i] {
            return false;
        }
        i = i + 1;
    }
    proof {
        assert(a@ =~= b@);
    }
    true
}

impl Game {
    /// Everything a live match record guarantees: a coherent board holding 15
    /// checkers per side, a cube value that is a power of two at most 64 (and
    /// below the cap whenever a double is pending), a definite side on turn
    /// once the opening roll is decided, and dice faces in range.
    pub open spec fn inv(self) -> bool {
        &&& self.board.wf()
        &&& self.board.checkers(Color::White) == 15
        &&& self.board.checkers(Color::Black) == 15
        &&& is_cube_value(self.multiplier)
        &&& (self.state == GameState::Doubled ==> self.multiplier != 64)
        &&& (self.state != GameState::Started ==> is_side(self.turn))
        &&& self.dice[0] <= 6
        &&& self.dice[1] <= 6
        &&& (self.state == GameState::Rolled ==> 1 <= self.dice[0] && 1 <= self.dice[1])
    }

    /// A fresh match: state `Started`, cube at 1, and the standard opening
    /// layout of 15 checkers per side placed 2/5/3/5, mirrored per color.
    pub fn init(white_identity: [u8; 32], black_identity: [u8; 32], game_id: u64) -> (g: Game)
        ensures
            g.inv(),
            g.game_id == game_id,
            g.state == GameState::Started,
            g.white_identity == white_identity,
            g.black_identity == black_identity,
            g.turn == Color::Neither,
            g.winner == Color::Neither,
            g.dice[0] == 0 && g.dice[1] == 0,
            g.multiplier == 1,
            g.last_moves@ == Seq::new(4, |i: int| Move { start: 0, steps: 0 }),
            g.last_doubled == Color::Neither,
            g.board.points@ == initial_points(),
            g.board.borne@ == seq![0u8, 0u8],
            g.max_moves == 0,
            g.first_moves@ == Seq::<Move>::empty(),
    {
        let empty = Point { color: Color::Neither, n_pieces: 0 };
        let mut board = Board { points: [empty;26], borne: [0, 0] };
        board.points[1] = Point { color: Color::White, n_pieces: 2 };
        board.points[12] = Point { color: Color::White, n_pieces: 5 };
        board.points[17] = Point { color: Color::White, n_pieces: 3 };
        board.points[19] = Point { color: Color::White, n_pieces: 5 };
        board.points[24] = Point { color: Color::Black, n_pieces: 2 };
        board.points[13] = Point { color: Color::Black, n_pieces: 5 };
        board.points[8] = Point { color: Color::Black, n_pieces: 3 };
        board.points[6] = Point { color: Color::Black, n_pieces: 5 };
        proof {
            assert(board.points@ =~= initial_points());
            assert(board.borne@ =~= seq![0u8, 0u8]);
            lemma_initial_counts();
        }
        let g = Game {
            game_id,
            state: GameState::Started,
            white_identity,
            black_identity,
            turn: Color::Neither,
            winner: Color::Neither,
            dice: [0, 0],
            multiplier: 1,
            last_moves: [Move { start: 0, steps: 0 };4],
            last_doubled: Color::Neither,
            board,
            max_moves: 0,
            first_moves: Vec::new(),
        };
        proof {
            assert(g.last_moves@ =~= Seq::new(4, |i: int| Move { start: 0, steps: 0 }));
        }
        g
    }

    /// Resolve an identity to its side: the white identity is White, the
    /// black one Black, anything else `Neither`.
    pub fn get_color(&self, identity: &[u8; 32]) -> (c: Color)
        ensures
            c == color_of_identity(*self, identity@),
    {
        if identity_eq(&self.white_identity, identity) {
            Color::White
        } else if identity_eq(&self.black_identity, identity) {
            Color::Black
        } else {
            Color::Neither
        }
    }

    /// The match record has been set up.
    pub fn is_initialized(&self) -> (b: bool)
        ensures
            b == (self.state != GameState::Uninitialized),
    {
        !matches!(self.state, GameState::Uninitialized)
    }

    /// `player` may request a double right now.
    pub fn can_double(&self, player: Color) -> (r: bool)
        ensures
            r == can_double_spec(*self, player),
    {
        if !matches!(self.state, GameState::DoubleOrRoll) {
            return false;
        }
        if self.turn != player {
            return false;
        }
        if self.last_doubled == player {
            return false;
        }
        if self.multiplier == 64 {
            return false;
        }
        true
    }

    /// Request a double: legal exactly when `can_double` holds, and moves the
    /// match to `Doubled`, awaiting the opponent's response.
    pub fn request_double(&mut self, player: Color) -> (r: Result<(), BackgammonError>)
        ensures
            can_double_spec(*old(self), player) ==> r == Ok::<(), BackgammonError>(())
                && *final(self) == (Game { state: GameState::Doubled, ..*old(self) }),
            !can_double_spec(*old(self), player) ==> r == Err::<(), BackgammonError>(
                BackgammonError::InvalidState,
            ) && *final(self) == *old(self),
            old(self).inv() ==> final(self).inv(),
    {
        if self.can_double(player) == false {
            return Err(BackgammonError::InvalidState);
        }
        self.state = GameState::Doubled;
        Ok(())
    }

    /// Recompute the cached legal-move count (and, for an ordinary roll, the
    /// retained opening half-moves) for the dice now showing.
    pub fn calc_max_moves(&mut self) -> (r: Result<(), BackgammonError>)
        requires
            is_side(old(self).turn),
            old(self).board.wf(),
            old(self).board.checkers(Color::White) <= 15,
            old(self).board.checkers(Color::Black) <= 15,
            1 <= old(self).dice[0],
            1 <= old(self).dice[1],
        ensures
            r == Ok::<(), BackgammonError>(()),
            counts_only_changed(*old(self), *final(self)),
            final(self).max_moves as int == spec_max_moves(
                old(self).board.points@,
                old(self).turn,
                old(self).dice[0],
                old(self).dice[1],
            ),
            final(self).first_moves@ == spec_first_moves(
                old(self).board.points@,
                old(self).turn,
                old(self).dice[0],
                old(self).dice[1],
            ),
    {
        if self.dice[0] == self.dice[1] {
            self.calc_max_moves_equal_dice()
        } else {
            self.calc_max_moves_unequal_dice()
        }
    }

    /// The doubles counter: walk the starts in the turn color's direction on
    /// a scratch board, playing the die value greedily, up to four plays.
    fn calc_max_moves_equal_dice(&mut self) -> (r: Result<(), BackgammonError>)
        requires
            is_side(old(self).turn),
            old(self).board.wf(),
            old(self).board.checkers(Color::White) <= 15,
            old(self).board.checkers(Color::Black) <= 15,
            1 <= old(self).dice[0],
        ensures
            r == Ok::<(), BackgammonError>(()),
            counts_only_changed(*old(self), *final(self)),
            final(self).max_moves as int == greedy_plays(
                old(self).board.points@,
                old(self).turn,
                old(self).dice[0],
                bar_index_of(old(self).turn),
                0,
            ),
            final(self).first_moves@ == Seq::<Move>::empty(),
    {
        let die = self.dice[0];
        let bar = match self.turn.get_bar_index() {
            Ok(b) => b,
            Err(_) => {
                return unreached();
            },
        };
        let mut board = self.board;
        let mut cnt: u8 = 0;
        let mut start: u8 = bar as u8;
        self.max_moves = 0;
        self.first_moves = Vec::new();
        loop
            invariant
                is_side(self.turn),
                bar as int == bar_index_of(self.turn),
                1 <= die,
                cnt <= 4,
                start <= 25,
                self.turn == Color::White ==> start <= 24,
                self.turn == Color::Black ==> 1 <= start,
                board.wf(),
                board.checkers(Color::White) <= 15,
                board.checkers(Color::Black) <= 15,
                greedy_plays(self.board.points@, self.turn, die, bar_index_of(self.turn), 0)
                    == greedy_plays(board.points@, self.turn, die, start as int, cnt as int),
            ensures
                greedy_plays(self.board.points@, self.turn, die, bar_index_of(self.turn), 0)
                    == cnt as int,
            decreases 4 - cnt, walk_remaining(self.turn, start as int),
        {
            if cnt >= 4 {
                break ;
            }
            let has = match board.has_checker_on_point(self.turn, start as usize) {
                Ok(h) => h,
                Err(_) => {
                    return unreached();
                },
            };
            let mut advance = false;
            let ghost prev = board.points@;
            if has {
                let move_ = Move { start, steps: die };
                match board.apply_move(self.turn, move_, false) {
                    Ok(_) => {
                        proof {
                            assert(occupied(prev, self.turn, start as int));
                            assert(valid_from(prev, self.turn, start as int, die));
                            assert(greedy_plays(prev, self.turn, die, start as int, cnt as int)
                                == greedy_plays(
                                board.points@,
                                self.turn,
                                die,
                                start as int,
                                cnt as int + 1,
                            ));
                        }
                        cnt = cnt + 1;
                    },
                    Err(_) => {
                        proof {
                            assert(!valid_from(prev, self.turn, start as int, die));
                        }
                        if start == bar as u8 {
                            proof {
                                assert(greedy_plays(prev, self.turn, die, start as int, cnt as int)
                                    == cnt as int);
                            }
                            break ;
                        }
                        advance = true;
                    },
                }
            } else {
                advance = true;
            }
            if advance {
                let ghost s0 = start as int;
                proof {
                    assert(!(occupied(prev, self.turn, s0) && valid_from(
                        prev,
                        self.turn,
                        s0,
                        die,
                    )));
                    assert(!(occupied(prev, self.turn, s0) && s0 == bar_index_of(self.turn)));
                }
                if matches!(self.turn, Color::White) {
                    if start >= 24 {
                        proof {
                            assert(walk_ends(self.turn, s0));
                            assert(greedy_plays(prev, self.turn, die, s0, cnt as int)
                                == cnt as int);
                        }
                        break ;
                    }
                    start = start + 1;
                } else {
                    if start <= 1 {
                        proof {
                            assert(walk_ends(self.turn, s0));
                            assert(greedy_plays(prev, self.turn, die, s0, cnt as int)
                                == cnt as int);
                        }
                        break ;
                    }
                    start = start - 1;
                }
                proof {
                    assert(start as int == next_start(self.turn, s0));
                    assert(greedy_plays(prev, self.turn, die, s0, cnt as int) == greedy_plays(
                        prev,
                        self.turn,
                        die,
                        start as int,
                        cnt as int,
                    ));
                }
            }
        }
        self.max_moves = cnt;
        Ok(())
    }

    /// One pass of the ordinary-roll counter: try `first` from every listed
    /// start on a scratch board, and retain the half-moves after which
    /// `other` still has a legal move.  Returns whether any start opened.
    fn scan_first_die(
        &self,
        first: u8,
        other: u8,
        starts: &Vec<u8>,
        first_moves: &mut Vec<Move>,
    ) -> (found: bool)
        requires
            is_side(self.turn),
            self.board.wf(),
            self.board.checkers(Color::White) <= 15,
            self.board.checkers(Color::Black) <= 15,
            1 <= first,
            1 <= other,
            forall|k: int| 0 <= k < starts@.len() ==> starts@[k] <= 25,
        ensures
            final(first_moves)@ == old(first_moves)@ + retained_firsts(
                self.board.points@,
                self.turn,
                first,
                other,
                starts@,
            ),
            found == some_start_valid(self.board.points@, self.turn, first, starts@),
    {
        let mut found = false;
        let mut k: usize = 0;
        while k < starts.len()
            invariant
                is_side(self.turn),
                self.board.wf(),
                self.board.checkers(Color::White) <= 15,
                self.board.checkers(Color::Black) <= 15,
                1 <= first,
                1 <= other,
                forall|j: int| 0 <= j < starts@.len() ==> starts@[j] <= 25,
                k <= starts@.len(),
                first_moves@ == old(first_moves)@ + retained_firsts(
                    self.board.points@,
                    self.turn,
                    first,
                    other,
                    starts@.take(k as int),
                ),
                found == some_start_valid(
                    self.board.points@,
                    self.turn,
                    first,
                    starts@.take(k as int),
                ),
            decreases starts@.len() - k,
        {
            let mut scratch = self.board;
            let move_ = Move { start: starts[k], steps: first };
            let ghost taken = starts@.take(k as int);
            match scratch.apply_move(self.turn, move_, false) {
                Ok(_) => {
                    proof {
                        assert(valid_from(
                            self.board.points@,
                            self.turn,
                            starts@[k as int] as int,
                            first,
                        ));
                        assert(starts@.take(k as int + 1)[k as int] == starts@[k as int]);
                    }
                    found = true;
                    let has2 = match scratch.has_move_for_die(self.turn, other) {
                        Ok(h) => h,
                        Err(_) => {
                            return unreached();
                        },
                    };
                    if has2 {
                        first_moves.push(move_);
                    }
                },
                Err(_) => {},
            }
            k = k + 1;
            proof {
                assert(starts@.take(k as int).drop_last() =~= starts@.take(k as int - 1));
                assert(starts@.take(k as int).last() == starts@[k as int - 1]);
                assert forall|j: int|
                    0 <= j < k && #[trigger] valid_from(
                        self.board.points@,
                        self.turn,
                        starts@.take(k as int)[j] as int,
                        first,
                    ) implies valid_from(
                    self.board.points@,
                    self.turn,
                    starts@[j] as int,
                    first,
                ) by {
                    assert(starts@.take(k as int)[j] == starts@[j]);
                }
                assert forall|j: int|
                    0 <= j < k - 1 && #[trigger] valid_from(
                        self.board.points@,
                        self.turn,
                        taken[j] as int,
                        first,
                    ) implies valid_from(
                    self.board.points@,
                    self.turn,
                    starts@.take(k as int)[j] as int,
                    first,
                ) by {
                    assert(taken[j] == starts@.take(k as int)[j]);
                }
            }
        }
        proof {
            assert(starts@.take(starts@.len() as int) =~= starts@);
        }
        found
    }

    /// The ordinary-roll counter: try each die first from every allowed
    /// start, retaining the half-moves that keep the other die playable; two
    /// plays are available when any is retained, one when any start opens at
    /// all, else none.
    fn calc_max_moves_unequal_dice(&mut self) -> (r: Result<(), BackgammonError>)
        requires
            is_side(old(self).turn),
            old(self).board.wf(),
            old(self).board.checkers(Color::White) <= 15,
            old(self).board.checkers(Color::Black) <= 15,
            1 <= old(self).dice[0],
            1 <= old(self).dice[1],
            old(self).dice[0] != old(self).dice[1],
        ensures
            r == Ok::<(), BackgammonError>(()),
            counts_only_changed(*old(self), *final(self)),
            final(self).max_moves as int == spec_max_moves(
                old(self).board.points@,
                old(self).turn,
                old(self).dice[0],
                old(self).dice[1],
            ),
            final(self).first_moves@ == spec_first_moves(
                old(self).board.points@,
                old(self).turn,
                old(self).dice[0],
                old(self).dice[1],
            ),
    {
        let d0 = self.dice[0];
        let d1 = self.dice[1];
        let on_bar = match self.board.has_checker_on_bar(self.turn) {
            Ok(b) => b,
            Err(_) => {
                return unreached();
            },
        };
        let mut starts: Vec<u8> = Vec::new();
        if on_bar {
            let bar = match self.turn.get_bar_index() {
                Ok(b) => b,
                Err(_) => {
                    return unreached();
                },
            };
            starts.push(bar as u8);
            proof {
                assert(starts@ =~= counting_starts(self.board.points@, self.turn));
            }
        } else {
            let mut i: u8 = 1;
            while i <= 24
                invariant
                    1 <= i <= 25,
                    starts@.len() == i - 1,
                    forall|j: int| 0 <= j < i - 1 ==> starts@[j] == j + 1,
                decreases 25 - i,
            {
                starts.push(i);
                i = i + 1;
            }
            proof {
                assert(starts@ =~= counting_starts(self.board.points@, self.turn));
            }
        }
        let mut first_moves: Vec<Move> = Vec::new();
        let found0 = self.scan_first_die(d0, d1, &starts, &mut first_moves);
        let found1 = self.scan_first_die(d1, d0, &starts, &mut first_moves);
        if first_moves.len() > 0 {
            self.max_moves = 2;
        } else if found0 || found1 {
            self.max_moves = 1;
        } else {
            self.max_moves = 0;
        }
        self.first_moves = first_moves;
        Ok(())
    }

    /// Roll dice.  In `Started`, each side contributes one opening die into
    /// its own slot, exactly once; a decided opening starts the match with
    /// the higher face's side on turn, a tie resets both slots to be retried.
    /// In any other state, the side in `turn` rolls both dice and the
    /// legal-move data is recomputed.
    pub fn roll_dice<R: RandomDice>(&mut self, player: Color, rdc: &mut R) -> (r: Result<
        (),
        BackgammonError,
    >)
        requires
            old(self).board.wf(),
            old(self).board.checkers(Color::White) <= 15,
            old(self).board.checkers(Color::Black) <= 15,
            old(self).state != GameState::Started ==> is_side(old(self).turn),
            old(self).dice[0] <= 6,
            old(self).dice[1] <= 6,
        ensures
            old(self).inv() ==> final(self).inv(),
            old(self).state == GameState::Started && player == Color::Neither ==> r == Err::<
                (),
                BackgammonError,
            >(BackgammonError::InvalidColor) && *final(self) == *old(self),
            old(self).state == GameState::Started && is_side(player) && old(self).dice[slot_of(
                player,
            )] != 0 ==> r == Err::<(), BackgammonError>(BackgammonError::InvalidState) && *final(self) == *old(self),
            old(self).state == GameState::Started && is_side(player) && old(self).dice[slot_of(
                player,
            )] == 0 ==> r == Ok::<(), BackgammonError>(()) && exists|d: Die|
                opening_roll_outcome(*old(self), *final(self), player, d),
            old(self).state != GameState::Started && player != old(self).turn ==> r == Err::<
                (),
                BackgammonError,
            >(BackgammonError::UnauthorizedAction) && *final(self) == *old(self),
            old(self).state != GameState::Started && player == old(self).turn ==> r == Ok::<
                (),
                BackgammonError,
            >(()) && exists|d0: Die, d1: Die|
                turn_roll_outcome(*old(self), *final(self), d0, d1),
    {
        if matches!(self.state, GameState::Started) {
            let idx = match player.index() {
                Ok(i) => i,
                Err(e) => {
                    return Err(e);
                },
            };
            if self.dice[idx] != 0 {
                return Err(BackgammonError::InvalidState);
            }
            let d = rdc.generate();
            self.dice[idx] = d;
            if self.dice[0] != 0 && self.dice[1] != 0 {
                if self.dice[0] != self.dice[1] {
                    self.state = GameState::Rolled;
                    if self.dice[0] > self.dice[1] {
                        self.turn = Color::White;
                    } else {
                        self.turn = Color::Black;
                    }
                    match self.calc_max_moves() {
                        Ok(()) => {},
                        Err(_) => {
                            return unreached();
                        },
                    }
                } else {
                    self.dice[0] = 0;
                    self.dice[1] = 0;
                }
            }
            proof {
                assert(opening_roll_outcome(*old(self), *self, player, d));
            }
            Ok(())
        } else {
            if player != self.turn {
                return Err(BackgammonError::UnauthorizedAction);
            }
            let d0 = rdc.generate();
            let d1 = rdc.generate();
            self.dice[0] = d0;
            self.dice[1] = d1;
            self.state = GameState::Rolled;
            match self.calc_max_moves() {
                Ok(()) => {},
                Err(_) => {
                    return unreached();
                },
            }
            proof {
                assert(turn_roll_outcome(*old(self), *self, d0, d1));
            }
            Ok(())
        }
    }

    /// Decline to offer a double and just roll: legal in `Started` (an
    /// opening contribution) and in `DoubleOrRoll` (a full turn roll), and
    /// then behaves exactly as `roll_dice`.
    pub fn skip_double<R: RandomDice>(&mut self, player: Color, rdc: &mut R) -> (r: Result<
        (),
        BackgammonError,
    >)
        requires
            old(self).inv(),
        ensures
            final(self).inv(),
            old(self).state != GameState::Started && old(self).state != GameState::DoubleOrRoll
                ==> r == Err::<(), BackgammonError>(BackgammonError::InvalidState) && *final(self)
                == *old(self),
            old(self).state == GameState::Started && player == Color::Neither ==> r == Err::<
                (),
                BackgammonError,
            >(BackgammonError::InvalidColor) && *final(self) == *old(self),
            old(self).state == GameState::Started && is_side(player) && old(self).dice[slot_of(
                player,
            )] != 0 ==> r == Err::<(), BackgammonError>(BackgammonError::InvalidState) && *final(self) == *old(self),
            old(self).state == GameState::Started && is_side(player) && old(self).dice[slot_of(
                player,
            )] == 0 ==> r == Ok::<(), BackgammonError>(()) && exists|d: Die|
                opening_roll_outcome(*old(self), *final(self), player, d),
            old(self).state == GameState::DoubleOrRoll && player != old(self).turn ==> r == Err::<
                (),
                BackgammonError,
            >(BackgammonError::UnauthorizedAction) && *final(self) == *old(self),
            old(self).state == GameState::DoubleOrRoll && player == old(self).turn ==> r == Ok::<
                (),
                BackgammonError,
            >(()) && exists|d0: Die, d1: Die|
                turn_roll_outcome(*old(self), *final(self), d0, d1),
    {
        if !matches!(self.state, GameState::Started) && !matches!(
            self.state,
            GameState::DoubleOrRoll,
        ) {
            return Err(BackgammonError::InvalidState);
        }
        self.roll_dice(player, rdc)
    }

    /// Answer a pending double: only the opponent of the side that doubled
    /// may answer.  Accepting doubles the cube, charges it to the doubling
    /// side, passes the turn to the accepter and rolls for it; rejecting
    /// ends the match at once in favor of the doubling side.
    pub fn respond_to_double<R: RandomDice>(
        &mut self,
        player: Color,
        accept: bool,
        rdc: &mut R,
    ) -> (r: Result<(), BackgammonError>)
        requires
            old(self).inv(),
        ensures
            final(self).inv(),
            old(self).state != GameState::Doubled ==> r == Err::<(), BackgammonError>(
                BackgammonError::InvalidState,
            ) && *final(self) == *old(self),
            old(self).state == GameState::Doubled && player != opponent_of(old(self).turn) ==> r
                == Err::<(), BackgammonError>(BackgammonError::UnauthorizedAction) && *final(self)
                == *old(self),
            old(self).state == GameState::Doubled && player == opponent_of(old(self).turn)
                && !accept ==> r == Ok::<(), BackgammonError>(()) && *final(self) == (Game {
                winner: old(self).turn,
                state: GameState::Finished,
                ..*old(self)
            }),
            old(self).state == GameState::Doubled && player == opponent_of(old(self).turn)
                && accept ==> r == Ok::<(), BackgammonError>(()) && exists|d0: Die, d1: Die|
                double_accept_outcome(*old(self), *final(self), d0, d1),
    {
        if !matches!(self.state, GameState::Doubled) {
            return Err(BackgammonError::InvalidState);
        }
        let opp = match self.turn.opponent() {
            Ok(o) => o,
            Err(_) => {
                return unreached();
            },
        };
        if player != opp {
            return Err(BackgammonError::UnauthorizedAction);
        }
        if accept {
            self.multiplier = self.multiplier * 2;
            self.last_doubled = self.turn;
            self.turn = opp;
            let ghost mid = *self;
            match self.roll_dice(player, rdc) {
                Ok(()) => {},
                Err(_) => {
                    return unreached();
                },
            }
            proof {
                let (d0, d1) = choose|d0: Die, d1: Die| turn_roll_outcome(mid, *self, d0, d1);
                assert(double_accept_outcome(*old(self), *self, d0, d1));
            }
            Ok(())
        } else {
            self.winner = self.turn;
            self.state = GameState::Finished;
            Ok(())
        }
    }

    /// Apply a batch of up to four moves for the side in `turn`, atomically:
    /// an illegal batch leaves the record unchanged.  Each non-sentinel move
    /// must spend one remaining die value and pass board legality; a
    /// `steps == 0` entry passes on the remaining values.  Bearing off the
    /// fifteenth checker wins the match; otherwise the turn passes to the
    /// opponent, auto-rolling when the opponent may not double.
    #[verifier::loop_isolation(false)]
    pub fn apply_moves<R: RandomDice>(&mut self, player: Color, moves: [Move; 4], rdc: &mut R) -> (r:
        Result<(), BackgammonError>)
        requires
            old(self).inv(),
        ensures
            final(self).inv(),
            old(self).state != GameState::Rolled ==> r == Err::<(), BackgammonError>(
                BackgammonError::InvalidState,
            ) && *final(self) == *old(self),
            old(self).state == GameState::Rolled && player != old(self).turn ==> r == Err::<
                (),
                BackgammonError,
            >(BackgammonError::UnauthorizedAction) && *final(self) == *old(self),
            old(self).state == GameState::Rolled && player == old(self).turn ==> (match batch_apply(
                old(self).board.points@,
                old(self).board.borne@,
                player,
                moves@,
                roll_values(old(self).dice[0], old(self).dice[1]),
            ) {
                Option::None => r == Err::<(), BackgammonError>(BackgammonError::InvalidMove)
                    && *final(self) == *old(self),
                Option::Some((pts, brn)) => r == Ok::<(), BackgammonError>(())
                    && apply_moves_ok_post(*old(self), *final(self), player, moves@, pts, brn),
            }),
    {
        if !matches!(self.state, GameState::Rolled) {
            return Err(BackgammonError::InvalidState);
        }
        if player != self.turn {
            return Err(BackgammonError::UnauthorizedAction);
        }
        let mut values: Vec<u8> = Vec::new();
        values.push(self.dice[0]);
        values.push(self.dice[1]);
        if self.dice[0] == self.dice[1] {
            values.push(self.dice[0]);
            values.push(self.dice[0]);
        }
        proof {
            assert(values@ =~= roll_values(old(self).dice[0], old(self).dice[1]));
        }
        let ghost goal = batch_apply(
            self.board.points@,
            self.board.borne@,
            player,
            moves@,
            roll_values(self.dice[0], self.dice[1]),
        );
        proof {
            assert(moves@.skip(0) =~= moves@);
        }
        let mut board = self.board;
        let mut i: usize = 0;
        let mut stopped = false;
        while i < 4 && !stopped
            invariant
                i <= 4,
                board.wf(),
                board.checkers(Color::White) == 15,
                board.checkers(Color::Black) == 15,
                stopped ==> goal == Some((board.points@, board.borne@)),
                !stopped ==> goal == batch_apply(
                    board.points@,
                    board.borne@,
                    player,
                    moves@.skip(i as int),
                    values@,
                ),
            decreases 4 - i, (if stopped { 0int } else { 1int }),
        {
            let move_ = moves[i];
            proof {
                assert(moves@.skip(i as int)[0] == moves@[i as int]);
            }
            if move_.steps == 0 {
                stopped = true;
            } else {
                if !contains_value(&values, move_.steps) {
                    return Err(BackgammonError::InvalidMove);
                }
                if move_.start > 25 {
                    return Err(BackgammonError::InvalidMove);
                }
                match board.apply_move(self.turn, move_, true) {
                    Ok(_) => {},
                    Err(_) => {
                        return Err(BackgammonError::InvalidMove);
                    },
                }
                remove_first_value(&mut values, move_.steps);
                i = i + 1;
                proof {
                    assert(moves@.skip(i - 1 as int).drop_first() =~= moves@.skip(i as int));
                    assert(goal == batch_apply(
                        board.points@,
                        board.borne@,
                        player,
                        moves@.skip(i as int),
                        values@,
                    ));
                }
            }
        }
        proof {
            if !stopped {
                assert(moves@.skip(4).len() == 0);
            }
            assert(goal == Some((board.points@, board.borne@)));
        }
        self.board = board;
        self.last_moves = moves;
        let slot = match self.turn.index() {
            Ok(s) => s,
            Err(_) => {
                return unreached();
            },
        };
        if self.board.borne[slot] == 15 {
            self.winner = self.turn;
            self.state = GameState::Finished;
            return Ok(());
        }
        let opp = match self.turn.opponent() {
            Ok(o) => o,
            Err(_) => {
                return unreached();
            },
        };
        self.turn = opp;
        if self.last_doubled == self.turn || self.multiplier == 64 {
            let ghost mid = *self;
            let t = self.turn;
            match self.roll_dice(t, rdc) {
                Ok(()) => {},
                Err(_) => {
                    return unreached();
                },
            }
            proof {
                let (d0, d1) = choose|d0: Die, d1: Die| turn_roll_outcome(mid, *self, d0, d1);
                assert(fresh_roll(*self, mid.board.points@, opponent_of(player), d0, d1));
            }
            Ok(())
        } else {
            self.dice[0] = 0;
            self.dice[1] = 0;
            self.state = GameState::DoubleOrRoll;
            Ok(())
        }
    }
}

/// The next start the counter walks to: White ascends the indices, Black
/// descends them.
pub open spec fn next_start(c: Color, start: int) -> int {
    if c == Color::White {
        start + 1
    } else {
        start - 1
    }
}

/// The counter's walk stops after this start.
pub open spec fn walk_ends(c: Color, start: int) -> bool {
    if c == Color::White {
        start >= 24
    } else {
        start <= 1
    }
}

/// How many starts the walk can still visit; a termination measure.
pub open spec fn walk_remaining(c: Color, start: int) -> int {
    if c == Color::White {
        25 - start
    } else {
        start
    }
}

/// Plays counted for a doubling roll, from `start` onward with `cnt` plays
/// already made: play the die from the current start while legal (the board
/// evolving under the plays), stop the whole count when the bar start fails,
/// otherwise walk on to the next start; cap at 4.
pub open spec fn greedy_plays(points: Seq<Point>, c: Color, die: u8, start: int, cnt: int) -> int
    decreases 4 - cnt, walk_remaining(c, start),
        when 0 <= cnt <= 4 && 0 <= start <= 25 && is_side(c) && 1 <= die
{
    if cnt >= 4 {
        cnt
    } else if occupied(points, c, start) && valid_from(points, c, start, die) {
        greedy_plays(
            points_after(points, c, Move { start: start as u8, steps: die }),
            c,
            die,
            start,
            cnt + 1,
        )
    } else if occupied(points, c, start) && start == bar_index_of(c) {
        cnt
    } else if walk_ends(c, start) {
        cnt
    } else {
        greedy_plays(points, c, die, next_start(c, start), cnt)
    }
}

/// The starts the counter examines: only the bar when a checker waits there,
/// else every playing point in ascending index order.
pub open spec fn counting_starts(points: Seq<Point>, c: Color) -> Seq<u8> {
    if occupied(points, c, bar_index_of(c)) {
        seq![bar_index_of(c) as u8]
    } else {
        Seq::new(24, |i: int| (i + 1) as u8)
    }
}

/// The retained opening half-moves when `first` is played before `other`:
/// the legal `first`-moves from the listed starts after which `other` still
/// has a legal move on the resulting board, in start-list order.
pub open spec fn retained_firsts(
    points: Seq<Point>,
    c: Color,
    first: u8,
    other: u8,
    starts: Seq<u8>,
) -> Seq<Move>
    decreases starts.len(),
{
    if starts.len() == 0 {
        Seq::empty()
    } else {
        let m = Move { start: starts.last(), steps: first };
        retained_firsts(points, c, first, other, starts.drop_last()) + (if valid_move(points, c, m)
            && has_any_move(points_after(points, c, m), c, other) {
            seq![m]
        } else {
            Seq::<Move>::empty()
        })
    }
}

/// Some listed start opens legally with `die`.
pub open spec fn some_start_valid(points: Seq<Point>, c: Color, die: u8, starts: Seq<u8>) -> bool {
    exists|k: int| 0 <= k < starts.len() && #[trigger] valid_from(points, c, starts[k] as int, die)
}

/// The retained opening half-moves of a whole roll: none for doubles; for an
/// ordinary roll, those of `d0`-then-`d1` followed by those of `d1`-then-`d0`.
pub open spec fn spec_first_moves(points: Seq<Point>, c: Color, d0: u8, d1: u8) -> Seq<Move> {
    if d0 == d1 {
        Seq::empty()
    } else {
        retained_firsts(points, c, d0, d1, counting_starts(points, c)) + retained_firsts(
            points,
            c,
            d1,
            d0,
            counting_starts(points, c),
        )
    }
}

/// The legal-move count of a roll: the greedy count for doubles; for an
/// ordinary roll, 2 when some opening half-move keeps the other die playable,
/// else 1 when either die opens at all, else 0.
pub open spec fn spec_max_moves(points: Seq<Point>, c: Color, d0: u8, d1: u8) -> int {
    if d0 == d1 {
        greedy_plays(points, c, d0, bar_index_of(c), 0)
    } else if spec_first_moves(points, c, d0, d1).len() > 0 {
        2
    } else if some_start_valid(points, c, d0, counting_starts(points, c)) || some_start_valid(
        points,
        c,
        d1,
        counting_starts(points, c),
    ) {
        1
    } else {
        0
    }
}

/// `n` agrees with `o` on every field a dice roll leaves alone (all but
/// `state`, `turn`, `dice` and the cached legal-move data).
pub open spec fn same_but_roll(o: Game, n: Game) -> bool {
    &&& n.game_id == o.game_id
    &&& n.white_identity == o.white_identity
    &&& n.black_identity == o.black_identity
    &&& n.winner == o.winner
    &&& n.multiplier == o.multiplier
    &&& n.last_moves == o.last_moves
    &&& n.last_doubled == o.last_doubled
    &&& n.board == o.board
}

/// `n` shows a fresh roll of `d0`,`d1` for side `c` on the board `points`,
/// with the legal-move data recomputed for it.
pub open spec fn fresh_roll(n: Game, points: Seq<Point>, c: Color, d0: u8, d1: u8) -> bool {
    &&& 1 <= d0 <= 6
    &&& 1 <= d1 <= 6
    &&& n.state == GameState::Rolled
    &&& n.dice[0] == d0
    &&& n.dice[1] == d1
    &&& n.max_moves as int == spec_max_moves(points, c, d0, d1)
    &&& n.first_moves@ == spec_first_moves(points, c, d0, d1)
}

/// What one opening-roll contribution of face `d` by `player` does: record
/// the die in the player's slot; once both slots are set, a tie resets both
/// (to be retried) while distinct faces start the match with the higher
/// face's side on turn.
pub open spec fn opening_roll_outcome(o: Game, n: Game, player: Color, d: u8) -> bool {
    let r0 = if slot_of(player) == 0 {
        d
    } else {
        o.dice[0]
    };
    let r1 = if slot_of(player) == 1 {
        d
    } else {
        o.dice[1]
    };
    &&& 1 <= d <= 6
    &&& same_but_roll(o, n)
    &&& if r0 == 0 || r1 == 0 {
        &&& n.state == o.state
        &&& n.turn == o.turn
        &&& n.dice[0] == r0
        &&& n.dice[1] == r1
        &&& n.max_moves == o.max_moves
        &&& n.first_moves == o.first_moves
    } else if r0 == r1 {
        &&& n.state == o.state
        &&& n.turn == o.turn
        &&& n.dice[0] == 0
        &&& n.dice[1] == 0
        &&& n.max_moves == o.max_moves
        &&& n.first_moves == o.first_moves
    } else {
        let t = if r0 > r1 {
            Color::White
        } else {
            Color::Black
        };
        &&& n.turn == t
        &&& fresh_roll(n, o.board.points@, t, r0, r1)
    }
}

/// What a full turn roll does: two fresh dice for the unchanged side in
/// `turn`, with the legal-move data recomputed.
pub open spec fn turn_roll_outcome(o: Game, n: Game, d0: u8, d1: u8) -> bool {
    &&& same_but_roll(o, n)
    &&& n.turn == o.turn
    &&& fresh_roll(n, o.board.points@, o.turn, d0, d1)
}

/// What accepting a double does: the cube doubles and is charged to the side
/// that offered it, the turn passes to the accepting side, and the dice are
/// rolled for it.
pub open spec fn double_accept_outcome(o: Game, n: Game, d0: u8, d1: u8) -> bool {
    &&& n.game_id == o.game_id
    &&& n.white_identity == o.white_identity
    &&& n.black_identity == o.black_identity
    &&& n.winner == o.winner
    &&& n.last_moves == o.last_moves
    &&& n.board == o.board
    &&& n.multiplier == 2 * o.multiplier
    &&& n.last_doubled == o.turn
    &&& n.turn == opponent_of(o.turn)
    &&& fresh_roll(n, o.board.points@, opponent_of(o.turn), d0, d1)
}

/// The die values playable this turn: the two dice, extended to four entries
/// of the same face for doubles.
pub open spec fn roll_values(d0: u8, d1: u8) -> Seq<u8> {
    if d0 == d1 {
        seq![d0, d1, d0, d0]
    } else {
        seq![d0, d1]
    }
}

/// `vals` minus its first occurrence of `x`.
pub open spec fn remove_first(vals: Seq<u8>, x: u8) -> Seq<u8>
    decreases vals.len(),
{
    if vals.len() == 0 {
        vals
    } else if vals[0] == x {
        vals.drop_first()
    } else {
        seq![vals[0]] + remove_first(vals.drop_first(), x)
    }
}

/// The board after a move batch, applied in order against the playable die
/// values `vals`: a `steps == 0` entry ends the batch early; a move whose
/// `steps` is not among the remaining values, whose start lies off the board,
/// or which the board rejects, fails the whole batch.
pub open spec fn batch_apply(
    points: Seq<Point>,
    borne: Seq<u8>,
    c: Color,
    moves: Seq<Move>,
    vals: Seq<u8>,
) -> Option<(Seq<Point>, Seq<u8>)>
    decreases moves.len(),
{
    if moves.len() == 0 {
        Some((points, borne))
    } else if moves[0].steps == 0 {
        Some((points, borne))
    } else if !vals.contains(moves[0].steps) {
        None
    } else if moves[0].start > 25 || !valid_move(points, c, moves[0]) {
        None
    } else {
        batch_apply(
            points_after(points, c, moves[0]),
            borne_after(borne, c, moves[0]),
            c,
            moves.drop_first(),
            remove_first(vals, moves[0].steps),
        )
    }
}

/// What a successful move batch does to the rest of the record: the batch is
/// remembered, a side that has borne off all 15 checkers wins at once, and
/// otherwise the turn passes to the opponent -- with an automatic roll when
/// the opponent may not double (it doubled last, or the cube is capped), and
/// a `DoubleOrRoll` decision with cleared dice otherwise.
pub open spec fn apply_moves_ok_post(
    o: Game,
    n: Game,
    player: Color,
    moves: Seq<Move>,
    pts: Seq<Point>,
    brn: Seq<u8>,
) -> bool {
    &&& n.game_id == o.game_id
    &&& n.white_identity == o.white_identity
    &&& n.black_identity == o.black_identity
    &&& n.multiplier == o.multiplier
    &&& n.last_doubled == o.last_doubled
    &&& n.board.points@ == pts
    &&& n.board.borne@ == brn
    &&& n.last_moves@ == moves
    &&& if brn[slot_of(player)] == 15 {
        &&& n.winner == player
        &&& n.state == GameState::Finished
        &&& n.turn == o.turn
        &&& n.dice == o.dice
        &&& n.max_moves == o.max_moves
        &&& n.first_moves == o.first_moves
    } else {
        &&& n.winner == o.winner
        &&& n.turn == opponent_of(player)
        &&& if o.last_doubled == opponent_of(player) || o.multiplier == 64 {
            exists|d0: u8, d1: u8| #[trigger] fresh_roll(n, pts, opponent_of(player), d0, d1)
        } else {
            &&& n.state == GameState::DoubleOrRoll
            &&& n.dice[0] == 0
            &&& n.dice[1] == 0
            &&& n.max_moves == o.max_moves
            &&& n.first_moves == o.first_moves
        }
    }
}

/// `b` differs from `a` at most in the cached legal-move data.
pub open spec fn counts_only_changed(a: Game, b: Game) -> bool {
    &&& b.game_id == a.game_id
    &&& b.state == a.state
    &&& b.white_identity == a.white_identity
    &&& b.black_identity == a.black_identity
    &&& b.turn == a.turn
    &&& b.winner == a.winner
    &&& b.dice == a.dice
    &&& b.multiplier == a.multiplier
    &&& b.last_moves == a.last_moves
    &&& b.last_doubled == a.last_doubled
    &&& b.board == a.board
}

/// `values` holds `x` somewhere.
fn contains_value(values: &Vec<u8>, x: u8) -> (r: bool)
    ensures
        r == values@.contains(x),
{
    let mut i: usize = 0;
    while i < values.len()
        invariant
            i <= values@.len(),
            forall|j: int| 0 <= j < i ==> values@[j] != x,
        decreases values@.len() - i,
    {
        if values[i] == x {
            return true;
        }
        i = i + 1;
    }
    false
}

/// Dropping the first occurrence of `x` is removal at its first index.
proof fn lemma_remove_first_at(s: Seq<u8>, j: int, x: u8)
    requires
        0 <= j < s.len(),
        s[j] == x,
        forall|k: int| 0 <= k < j ==> s[k] != x,
    ensures
        remove_first(s, x) == s.remove(j),
    decreases j,
{
    if j == 0 {
        assert(s.drop_first() =~= s.remove(0));
    } else {
        assert forall|k: int| 0 <= k < j - 1 implies s.drop_first()[k] != x by {
            assert(s.drop_first()[k] == s[k + 1]);
        }
        lemma_remove_first_at(s.drop_first(), j - 1, x);
        assert(seq![s[0]] + s.drop_first().remove(j - 1) =~= s.remove(j));
    }
}

/// Remove the first occurrence of `x` from `values`.
fn remove_first_value(values: &mut Vec<u8>, x: u8)
    requires
        old(values)@.contains(x),
    ensures
        final(values)@ == remove_first(old(values)@, x),
{
    let mut j: usize = 0;
    while j < values.len()
        invariant
            j <= values@.len(),
            values@ == old(values)@,
            values@.contains(x),
            forall|k: int| 0 <= k < j ==> values@[k] != x,
        decreases values@.len() - j,
    {
        if values[j] == x {
            proof {
                lemma_remove_first_at(values@, j as int, x);
            }
            values.remove(j);
            return ;
        }
        j = j + 1;
    }
    proof {
        let w = choose|w: int| 0 <= w < values@.len() && values@[w] == x;
        assert(false);
    }
}

/// The counter's start list enforces bar priority, so "some listed start
/// opens with `die`" is exactly the board's one-step lookahead oracle.
pub proof fn lemma_some_start_is_any_move(points: Seq<Point>, c: Color, die: u8)
    ensures
        some_start_valid(points, c, die, counting_starts(points, c)) == has_any_move(
            points,
            c,
            die,
        ),
{
    let starts = counting_starts(points, c);
    if occupied(points, c, bar_index_of(c)) {
        if valid_from(points, c, bar_index_of(c), die) {
            assert(valid_from(points, c, starts[0] as int, die));
        }
        if some_start_valid(points, c, die, starts) {
            let k = choose|k: int|
                0 <= k < starts.len() && #[trigger] valid_from(points, c, starts[k] as int, die);
            assert(starts[k] as int == bar_index_of(c));
        }
    } else {
        if some_start_valid(points, c, die, starts) {
            let k = choose|k: int|
                0 <= k < starts.len() && #[trigger] valid_from(points, c, starts[k] as int, die);
            assert(1 <= starts[k] as int <= 24);
        }
        if has_any_move(points, c, die) {
            let i = choose|i: int| 1 <= i <= 24 && #[trigger] valid_from(points, c, i, die);
            assert(starts[i - 1] as int == i);
            assert(valid_from(points, c, starts[i - 1] as int, die));
        }
    }
}

/// The greedy count never exceeds four plays and never forgets one already
/// made.
pub proof fn lemma_greedy_plays_range(points: Seq<Point>, c: Color, die: u8, start: int, cnt: int)
    requires
        0 <= cnt <= 4,
        0 <= start <= 25,
        is_side(c),
        1 <= die,
    ensures
        cnt <= greedy_plays(points, c, die, start, cnt) <= 4,
    decreases 4 - cnt, walk_remaining(c, start),
{
    if cnt >= 4 {
    } else if occupied(points, c, start) && valid_from(points, c, start, die) {
        lemma_greedy_plays_range(
            points_after(points, c, Move { start: start as u8, steps: die }),
            c,
            die,
            start,
            cnt + 1,
        );
    } else if occupied(points, c, start) && start == bar_index_of(c) {
    } else if walk_ends(c, start) {
    } else {
        lemma_greedy_plays_range(points, c, die, next_start(c, start), cnt);
    }
}

/// The legal-move count of any roll lies in 0..=4: at most four plays for
/// doubles, at most two for an ordinary roll.
pub proof fn lemma_max_moves_range(points: Seq<Point>, c: Color, d0: u8, d1: u8)
    requires
        is_side(c),
        1 <= d0,
        1 <= d1,
    ensures
        0 <= spec_max_moves(points, c, d0, d1) <= 4,
        d0 != d1 ==> spec_max_moves(points, c, d0, d1) <= 2,
{
    if d0 == d1 {
        lemma_greedy_plays_range(points, c, d0, bar_index_of(c), 0);
    }
}

/// Checker conservation: a live match record always accounts for exactly 15
/// checkers per side across its points, bars and borne-off counters.  Every
/// operation of the engine requires and re-establishes `inv`.
pub proof fn lemma_checker_conservation(g: Game)
    requires
        g.inv(),
    ensures
        g.board.checkers(Color::White) == 15,
        g.board.checkers(Color::Black) == 15,
{
}

/// The doubling cap: a live record's cube is one of 1,2,4,...,64, and once it
/// shows 64 no side can double.
pub proof fn lemma_doubling_cap(g: Game, player: Color)
    requires
        g.inv(),
    ensures
        is_cube_value(g.multiplier),
        g.multiplier == 64 ==> !can_double_spec(g, player),
{
}

/// No consecutive doubles: the side that used the cube last cannot double
/// until the opponent has redoubled (which replaces `last_doubled`).
pub proof fn lemma_no_consecutive_double(g: Game)
    ensures
        !can_double_spec(g, g.last_doubled),
{
}

/// Turn alternation: a successful move batch passes the turn to the mover's
/// opponent unless it just finished the match.
pub proof fn lemma_turn_alternation(
    o: Game,
    n: Game,
    player: Color,
    moves: Seq<Move>,
    pts: Seq<Point>,
    brn: Seq<u8>,
)
    requires
        is_side(player),
        apply_moves_ok_post(o, n, player, moves, pts, brn),
    ensures
        n.state == GameState::Finished || n.turn == opponent_of(player),
        n.state == GameState::Finished || n.turn != player,
{
}

/// The standard opening layout holds 15 checkers per side.
pub proof fn lemma_initial_counts()
    ensures
        count_points(initial_points(), Color::White) == 15,
        count_points(initial_points(), Color::Black) == 15,
{
    lemma_count_all_absent(empty_points(), Color::White);
    lemma_count_all_absent(empty_points(), Color::Black);
    let s0 = empty_points();
    let s1 = s0.update(1, Point { color: Color::White, n_pieces: 2 });
    let s2 = s1.update(12, Point { color: Color::White, n_pieces: 5 });
    let s3 = s2.update(17, Point { color: Color::White, n_pieces: 3 });
    let s4 = s3.update(19, Point { color: Color::White, n_pieces: 5 });
    let s5 = s4.update(24, Point { color: Color::Black, n_pieces: 2 });
    let s6 = s5.update(13, Point { color: Color::Black, n_pieces: 5 });
    let s7 = s6.update(8, Point { color: Color::Black, n_pieces: 3 });
    let s8 = s7.update(6, Point { color: Color::Black, n_pieces: 5 });
    lemma_count_update(s0, 1, Point { color: Color::White, n_pieces: 2 }, Color::White);
    lemma_count_update(s1, 12, Point { color: Color::White, n_pieces: 5 }, Color::White);
    lemma_count_update(s2, 17, Point { color: Color::White, n_pieces: 3 }, Color::White);
    lemma_count_update(s3, 19, Point { color: Color::White, n_pieces: 5 }, Color::White);
    lemma_count_update(s4, 24, Point { color: Color::Black, n_pieces: 2 }, Color::White);
    lemma_count_update(s5, 13, Point { color: Color::Black, n_pieces: 5 }, Color::White);
    lemma_count_update(s6, 8, Point { color: Color::Black, n_pieces: 3 }, Color::White);
    lemma_count_update(s7, 6, Point { color: Color::Black, n_pieces: 5 }, Color::White);
    lemma_count_update(s0, 1, Point { color: Color::White, n_pieces: 2 }, Color::Black);
    lemma_count_update(s1, 12, Point { color: Color::White, n_pieces: 5 }, Color::Black);
    lemma_count_update(s2, 17, Point { color: Color::White, n_pieces: 3 }, Color::Black);
    lemma_count_update(s3, 19, Point { color: Color::White, n_pieces: 5 }, Color::Black);
    lemma_count_update(s4, 24, Point { color: Color::Black, n_pieces: 2 }, Color::Black);
    lemma_count_update(s5, 13, Point { color: Color::Black, n_pieces: 5 }, Color::Black);
    lemma_count_update(s6, 8, Point { color: Color::Black, n_pieces: 3 }, Color::Black);
    lemma_count_update(s7, 6, Point { color: Color::Black, n_pieces: 5 }, Color::Black);
    assert(initial_points() =~= s8);
}

} // verus!
