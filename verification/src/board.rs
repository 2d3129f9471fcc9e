//! The board: 24 playing points, one bar slot per color, and the borne-off
//! counters, together with move legality and move application.

use vstd::prelude::*;

use crate::color::{bar_index_of, is_side, opponent_of, slot_of, Color};
use crate::error::BackgammonError;

verus! {

/// One board slot.  A point never holds mixed colors: `n_pieces` checkers of
/// `color`, or the `Neither` sentinel when empty.
#[derive(Clone, Copy, Debug, PartialEq, Eq, Structural)]
pub struct Point {
    pub color: Color,
    pub n_pieces: u8,
}

/// One half-move: move a checker from point `start` by `steps` pips.
/// `steps == 0` is the explicit "no more moves" sentinel inside a move batch.
#[derive(Clone, Copy, Debug, PartialEq, Eq, Structural)]
pub struct Move {
    pub start: u8,
    pub steps: u8,
}

/// The playing surface: `points[0]` is White's bar, `points[25]` Black's bar,
/// `points[1..=24]` the playing points; `borne[0]`/`borne[1]` count the
/// checkers White/Black has removed from play.
#[derive(Clone, Copy, Debug, PartialEq, Eq)]
pub struct Board {
    pub points: [Point; 26],
    pub borne: [u8; 2],
}

impl Default for Point {
    /// An unset slot is an empty point.
    fn default() -> (r: Self)
        ensures
            r == (Point { color: Color::Neither, n_pieces: 0 }),
    {
        Point { color: Color::Neither, n_pieces: 0 }
    }
}

impl Default for Move {
    /// An unset move is the `steps == 0` sentinel.
    fn default() -> (r: Self)
        ensures
            r == (Move { start: 0, steps: 0 }),
    {
        Move { start: 0, steps: 0 }
    }
}

/// Pips left before `c` can bear a checker off from point `idx`:
/// `25 - idx` for White, `idx` for Black.
pub open spec fn distance_of(c: Color, idx: int) -> int {
    if c == Color::White {
        25 - idx
    } else {
        idx
    }
}

/// Inverse of `distance_of`: the point index at distance `d` for `c`.
pub open spec fn index_at_distance(c: Color, d: int) -> int {
    if c == Color::White {
        25 - d
    } else {
        d
    }
}

/// Where the moved checker lands when the move does not bear off.
pub open spec fn end_of(c: Color, m: Move) -> int {
    index_at_distance(c, distance_of(c, m.start as int) - m.steps as int)
}

/// True when the move would carry the checker past the last point.
pub open spec fn bears_off(c: Color, m: Move) -> bool {
    distance_of(c, m.start as int) <= m.steps as int
}

/// Point `idx` holds at least one checker of `c`.
pub open spec fn occupied(points: Seq<Point>, c: Color, idx: int) -> bool {
    points[idx].n_pieces > 0 && points[idx].color == c
}

/// Point `idx` is made by the opponent of `c` and blocks `c` from landing.
pub open spec fn point_closed(points: Seq<Point>, c: Color, idx: int) -> bool {
    points[idx].color == opponent_of(c) && points[idx].n_pieces >= 2
}

/// The largest distance `<= d` at which `c` still has a checker, 0 if none.
pub open spec fn farthest_upto(points: Seq<Point>, c: Color, d: int) -> int
    decreases d,
{
    if d <= 0 {
        0
    } else if points[index_at_distance(c, d)].color == c {
        d
    } else {
        farthest_upto(points, c, d - 1)
    }
}

/// Distance of the rearmost checker of `c`, 0 when `c` has none on the board.
pub open spec fn farthest_distance(points: Seq<Point>, c: Color) -> int {
    farthest_upto(points, c, 25)
}

/// Board legality of one half-move of `c`, checked in order: the start point
/// is occupied by `c`; a bear-off needs every checker home (`farthest <= 6`)
/// and either an exact die or the farthest checker; any other move needs a
/// landing point that is not closed against `c`.
pub open spec fn valid_move(points: Seq<Point>, c: Color, m: Move) -> bool {
    &&& points[m.start as int].color == c
    &&& if bears_off(c, m) {
        &&& farthest_distance(points, c) <= 6
        &&& (distance_of(c, m.start as int) == farthest_distance(points, c) || distance_of(
            c,
            m.start as int,
        ) == m.steps as int)
    } else {
        !point_closed(points, c, end_of(c, m))
    }
}

/// `valid_move` of the move from `start` by `die` pips.
pub open spec fn valid_from(points: Seq<Point>, c: Color, start: int, die: u8) -> bool {
    valid_move(points, c, Move { start: start as u8, steps: die })
}

/// Some start offers `c` a legal move of length `die`; a checker on the bar
/// confines the choice to the bar.
pub open spec fn has_any_move(points: Seq<Point>, c: Color, die: u8) -> bool {
    if occupied(points, c, bar_index_of(c)) {
        valid_from(points, c, bar_index_of(c), die)
    } else {
        exists|i: int| 1 <= i <= 24 && #[trigger] valid_from(points, c, i, die)
    }
}

/// The start point after one checker leaves it.
pub open spec fn dec_point(p: Point) -> Point {
    if p.n_pieces == 1 {
        Point { color: Color::Neither, n_pieces: 0 }
    } else {
        Point { color: p.color, n_pieces: (p.n_pieces - 1) as u8 }
    }
}

/// The points after the lone checker on `idx` is sent to its own bar.
pub open spec fn hit_points(points: Seq<Point>, idx: int) -> Seq<Point> {
    let c = points[idx].color;
    points.update(
        bar_index_of(c),
        Point { color: c, n_pieces: (points[bar_index_of(c)].n_pieces + 1) as u8 },
    ).update(idx, Point { color: Color::Neither, n_pieces: 0 })
}

/// The points after a legal half-move of `c`: the start point loses one
/// checker; a bear-off touches no other point; otherwise a lone opposing
/// checker on the landing point is hit to its bar and the mover is placed.
pub open spec fn points_after(points: Seq<Point>, c: Color, m: Move) -> Seq<Point> {
    let p0 = points.update(m.start as int, dec_point(points[m.start as int]));
    if bears_off(c, m) {
        p0
    } else {
        let e = end_of(c, m);
        let p1 = if p0[e].color == opponent_of(c) {
            hit_points(p0, e)
        } else {
            p0
        };
        p1.update(e, Point { color: c, n_pieces: (p1[e].n_pieces + 1) as u8 })
    }
}

/// The borne-off counters after a legal half-move of `c`.
pub open spec fn borne_after(borne: Seq<u8>, c: Color, m: Move) -> Seq<u8> {
    if bears_off(c, m) {
        borne.update(slot_of(c), (borne[slot_of(c)] + 1) as u8)
    } else {
        borne
    }
}

/// A point is coherent: empty exactly when it holds the `Neither` sentinel.
pub open spec fn point_ok(p: Point) -> bool {
    (p.n_pieces == 0) <==> (p.color == Color::Neither)
}

/// Every slot of the board is coherent.
pub open spec fn points_ok(points: Seq<Point>) -> bool {
    forall|i: int| 0 <= i < points.len() ==> point_ok(#[trigger] points[i])
}

/// A bar slot holds only its own color's checkers.
pub open spec fn bars_ok(points: Seq<Point>) -> bool {
    points[0].color != Color::Black && points[25].color != Color::White
}

/// Checkers of `c` contributed by one point.
pub open spec fn point_count(p: Point, c: Color) -> int {
    if p.color == c {
        p.n_pieces as int
    } else {
        0
    }
}

/// Checkers of `c` on the given slots.
pub open spec fn count_points(points: Seq<Point>, c: Color) -> int
    decreases points.len(),
{
    if points.len() == 0 {
        0
    } else {
        count_points(points.drop_last(), c) + point_count(points.last(), c)
    }
}

pub proof fn lemma_count_nonneg(points: Seq<Point>, c: Color)
    ensures
        count_points(points, c) >= 0,
    decreases points.len(),
{
    if points.len() > 0 {
        lemma_count_nonneg(points.drop_last(), c);
    }
}

/// Replacing one slot changes the count by the difference of its
/// contributions.
pub proof fn lemma_count_update(points: Seq<Point>, i: int, p: Point, c: Color)
    requires
        0 <= i < points.len(),
    ensures
        count_points(points.update(i, p), c) == count_points(points, c) - point_count(
            points[i],
            c,
        ) + point_count(p, c),
    decreases points.len(),
{
    let s = points.update(i, p);
    if i == points.len() - 1 {
        assert(s.drop_last() =~= points.drop_last());
    } else {
        assert(s.drop_last() =~= points.drop_last().update(i, p));
        assert(s.last() == points.last());
        lemma_count_update(points.drop_last(), i, p, c);
    }
}

/// No single point holds more checkers of its color than the whole board.
pub proof fn lemma_point_le_count(points: Seq<Point>, i: int, c: Color)
    requires
        0 <= i < points.len(),
        points[i].color == c,
    ensures
        points[i].n_pieces as int <= count_points(points, c),
    decreases points.len(),
{
    if i == points.len() - 1 {
        lemma_count_nonneg(points.drop_last(), c);
    } else {
        assert(points.drop_last()[i] == points[i]);
        lemma_point_le_count(points.drop_last(), i, c);
    }
}

/// A board where no slot holds `c` holds none of `c`'s checkers.
pub proof fn lemma_count_all_absent(points: Seq<Point>, c: Color)
    requires
        forall|i: int| 0 <= i < points.len() ==> (#[trigger] points[i]).color != c,
    ensures
        count_points(points, c) == 0,
    decreases points.len(),
{
    if points.len() > 0 {
        assert forall|i: int| 0 <= i < points.drop_last().len() implies (#[trigger] points.drop_last()[i]).color
            != c by {
            assert(points.drop_last()[i] == points[i]);
        }
        lemma_count_all_absent(points.drop_last(), c);
    }
}

/// All 26 slots empty.
pub open spec fn empty_points() -> Seq<Point> {
    Seq::new(26, |i: int| Point { color: Color::Neither, n_pieces: 0 })
}

/// The standard opening layout: each side's 15 checkers placed 2/5/3/5 on its
/// four canonical starting points, mirrored between the colors.
pub open spec fn initial_points() -> Seq<Point> {
    empty_points().update(1, Point { color: Color::White, n_pieces: 2 }).update(
        12,
        Point { color: Color::White, n_pieces: 5 },
    ).update(17, Point { color: Color::White, n_pieces: 3 }).update(
        19,
        Point { color: Color::White, n_pieces: 5 },
    ).update(24, Point { color: Color::Black, n_pieces: 2 }).update(
        13,
        Point { color: Color::Black, n_pieces: 5 },
    ).update(8, Point { color: Color::Black, n_pieces: 3 }).update(
        6,
        Point { color: Color::Black, n_pieces: 5 },
    )
}

/// `farthest_upto` stays within `0..=d`.
pub proof fn lemma_farthest_range(points: Seq<Point>, c: Color, d: int)
    requires
        0 <= d,
    ensures
        0 <= farthest_upto(points, c, d) <= d,
    decreases d,
{
    if d > 0 && points[index_at_distance(c, d)].color != c {
        lemma_farthest_range(points, c, d - 1);
    }
}

/// Removing one checker of `c` from an occupied start keeps the board
/// coherent and lowers only `c`'s on-board count, by exactly one.
pub proof fn lemma_dec_point(points: Seq<Point>, c: Color, start: int)
    requires
        points.len() == 26,
        points_ok(points),
        bars_ok(points),
        0 <= start <= 25,
        points[start].color == c,
        is_side(c),
    ensures
        points_ok(points.update(start, dec_point(points[start]))),
        bars_ok(points.update(start, dec_point(points[start]))),
        count_points(points.update(start, dec_point(points[start])), c) == count_points(
            points,
            c,
        ) - 1,
        count_points(points.update(start, dec_point(points[start])), opponent_of(c))
            == count_points(points, opponent_of(c)),
{
    let dp = dec_point(points[start]);
    let s2 = points.update(start, dp);
    lemma_count_update(points, start, dp, c);
    lemma_count_update(points, start, dp, opponent_of(c));
    assert forall|i: int| 0 <= i < s2.len() implies point_ok(#[trigger] s2[i]) by {
        if i != start {
            assert(s2[i] == points[i]);
        }
    }
}

/// A legal half-move keeps the board coherent, keeps the bars owned, leaves
/// the opponent's on-board count unchanged, and lowers the mover's on-board
/// count exactly when it bears off.
pub proof fn lemma_move_preserves(points: Seq<Point>, c: Color, m: Move)
    requires
        points.len() == 26,
        points_ok(points),
        bars_ok(points),
        is_side(c),
        m.start <= 25,
        1 <= m.steps,
        valid_move(points, c, m),
        count_points(points, Color::White) <= 15,
        count_points(points, Color::Black) <= 15,
    ensures
        points_ok(points_after(points, c, m)),
        bars_ok(points_after(points, c, m)),
        count_points(points_after(points, c, m), c) == count_points(points, c) - (if bears_off(
            c,
            m,
        ) {
            1int
        } else {
            0int
        }),
        count_points(points_after(points, c, m), opponent_of(c)) == count_points(
            points,
            opponent_of(c),
        ),
{
    let start = m.start as int;
    let opp = opponent_of(c);
    let dp = dec_point(points[start]);
    let p0 = points.update(start, dp);
    lemma_dec_point(points, c, start);
    if !bears_off(c, m) {
        let e = end_of(c, m);
        assert(1 <= e <= 24);
        assert(e != start);
        assert(p0[e] == points[e]);
        if p0[e].color == opp {
            // a lone opposing checker is hit to its bar
            assert(points[e].n_pieces == 1);
            let bar = bar_index_of(opp);
            assert(bar != e);
            assert(bar != start);
            assert(p0[bar] == points[bar]);
            assert(points[bar].color != c);
            let pb = Point { color: opp, n_pieces: (p0[bar].n_pieces + 1) as u8 };
            if points[bar].color == opp {
                lemma_point_le_count(points, bar, opp);
            }
            let p1 = p0.update(bar, pb);
            lemma_count_update(p0, bar, pb, c);
            lemma_count_update(p0, bar, pb, opp);
            let pe = Point { color: Color::Neither, n_pieces: 0 };
            let p2 = p1.update(e, pe);
            assert(p1[e] == points[e]);
            lemma_count_update(p1, e, pe, c);
            lemma_count_update(p1, e, pe, opp);
            assert(p2 =~= hit_points(p0, e));
            let q = Point { color: c, n_pieces: (p2[e].n_pieces + 1) as u8 };
            lemma_count_update(p2, e, q, c);
            lemma_count_update(p2, e, q, opp);
            assert(points_after(points, c, m) =~= p2.update(e, q));
            assert forall|i: int| 0 <= i < 26 implies point_ok(
                #[trigger] p2.update(e, q)[i],
            ) by {
                if i != start && i != bar && i != e {
                    assert(p2.update(e, q)[i] == points[i]);
                }
            }
        } else {
            // the landing point is the mover's own or empty
            if p0[e].color == c {
                lemma_point_le_count(p0, e, c);
                lemma_count_nonneg(p0, c);
            }
            let q = Point { color: c, n_pieces: (p0[e].n_pieces + 1) as u8 };
            lemma_count_update(p0, e, q, c);
            lemma_count_update(p0, e, q, opp);
            assert(points_after(points, c, m) =~= p0.update(e, q));
            assert forall|i: int| 0 <= i < 26 implies point_ok(
                #[trigger] p0.update(e, q)[i],
            ) by {
                if i != start && i != e {
                    assert(p0.update(e, q)[i] == points[i]);
                }
            }
        }
    }
}

/// The bear-off gate: a side whose rearmost checker is still outside its home
/// board (`farthest > 6`) has no legal bear-off, so applying one fails.
pub proof fn lemma_bear_off_gate(points: Seq<Point>, c: Color, m: Move)
    requires
        bears_off(c, m),
        farthest_distance(points, c) > 6,
    ensures
        !valid_move(points, c, m),
{
}

/// A point made by the opponent (two or more checkers) cannot be landed on.
pub proof fn lemma_blocked_point(points: Seq<Point>, c: Color, m: Move)
    requires
        !bears_off(c, m),
        points[end_of(c, m)].color == opponent_of(c),
        points[end_of(c, m)].n_pieces >= 2,
    ensures
        !valid_move(points, c, m),
{
}

/// Hit semantics: a legal landing on a point held by the opponent finds
/// exactly one opposing checker there, relocates it to the opponent's bar,
/// and leaves the landing point solely occupied by the mover.
pub proof fn lemma_hit_semantics(points: Seq<Point>, c: Color, m: Move)
    requires
        points.len() == 26,
        points_ok(points),
        bars_ok(points),
        is_side(c),
        m.start <= 25,
        1 <= m.steps,
        valid_move(points, c, m),
        !bears_off(c, m),
        points[end_of(c, m)].color == opponent_of(c),
        count_points(points, opponent_of(c)) <= 15,
    ensures
        points[end_of(c, m)].n_pieces == 1,
        points_after(points, c, m)[end_of(c, m)] == (Point { color: c, n_pieces: 1 }),
        points_after(points, c, m)[bar_index_of(opponent_of(c))].color == opponent_of(c),
        points_after(points, c, m)[bar_index_of(opponent_of(c))].n_pieces == points[bar_index_of(
            opponent_of(c),
        )].n_pieces + 1,
{
    let start = m.start as int;
    let opp = opponent_of(c);
    let e = end_of(c, m);
    let bar = bar_index_of(opp);
    let p0 = points.update(start, dec_point(points[start]));
    assert(1 <= e <= 24);
    assert(e != start);
    assert(bar != e);
    assert(bar != start);
    assert(p0[e] == points[e]);
    assert(p0[bar] == points[bar]);
    if points[bar].color == opp {
        lemma_point_le_count(points, bar, opp);
    }
}

impl Board {
    /// Structural well-formedness: every slot coherent, each bar owned by its
    /// color.
    pub open spec fn wf(self) -> bool {
        points_ok(self.points@) && bars_ok(self.points@)
    }

    /// Total checkers of `c` on this board: on points, on the bar, and borne
    /// off.  A live match keeps this at 15 per side.
    pub open spec fn checkers(self, c: Color) -> int {
        count_points(self.points@, c) + self.borne@[slot_of(c)]
    }

    /// `idx` is made against `player`: at least two opposing checkers.
    pub fn is_closed(&self, player: Color, idx: u8) -> (r: Result<bool, BackgammonError>)
        ensures
            !(1 <= idx <= 24) ==> r == Err::<bool, BackgammonError>(BackgammonError::InvalidPoint),
            1 <= idx <= 24 && player == Color::Neither ==> r == Err::<bool, BackgammonError>(
                BackgammonError::InvalidColor,
            ),
            1 <= idx <= 24 && is_side(player) ==> r == Ok::<bool, BackgammonError>(
                point_closed(self.points@, player, idx as int),
            ),
    {
        if idx < 1 || idx > 24 {
            return Err(BackgammonError::InvalidPoint);
        }
        let opp = match player.opponent() {
            Ok(c) => c,
            Err(e) => {
                return Err(e);
            },
        };
        Ok(self.points[idx as usize].color == opp && self.points[idx as usize].n_pieces >= 2)
    }

    /// `player` has a checker waiting on the bar.
    pub fn has_checker_on_bar(&self, player: Color) -> (r: Result<bool, BackgammonError>)
        ensures
            is_side(player) ==> r == Ok::<bool, BackgammonError>(
                occupied(self.points@, player, bar_index_of(player)),
            ),
            player == Color::Neither ==> r == Err::<bool, BackgammonError>(
                BackgammonError::InvalidColor,
            ),
    {
        let bar_index = match player.get_bar_index() {
            Ok(i) => i,
            Err(e) => {
                return Err(e);
            },
        };
        self.has_checker_on_point(player, bar_index)
    }

    /// `player` has a checker on slot `idx`.
    pub fn has_checker_on_point(&self, player: Color, idx: usize) -> (r: Result<
        bool,
        BackgammonError,
    >)
        requires
            idx < 26,
        ensures
            r == Ok::<bool, BackgammonError>(occupied(self.points@, player, idx as int)),
    {
        Ok(self.points[idx].n_pieces > 0 && self.points[idx].color == player)
    }

    /// Pips left before `player` bears off from `idx`.
    pub fn distance(&self, player: Color, idx: u8) -> (r: Result<u8, BackgammonError>)
        requires
            idx <= 25,
        ensures
            is_side(player) ==> r == Ok::<u8, BackgammonError>(
                distance_of(player, idx as int) as u8,
            ),
            player == Color::Neither ==> r == Err::<u8, BackgammonError>(
                BackgammonError::InvalidColor,
            ),
    {
        match player {
            Color::White => Ok(25 - idx),
            Color::Black => Ok(idx),
            Color::Neither => Err(BackgammonError::InvalidColor),
        }
    }

    /// The point index at `distance` for `player`; inverse of `distance`.
    pub fn from_distance(&self, player: Color, distance: u8) -> (r: Result<u8, BackgammonError>)
        requires
            distance <= 25,
        ensures
            is_side(player) ==> r == Ok::<u8, BackgammonError>(
                index_at_distance(player, distance as int) as u8,
            ),
            player == Color::Neither ==> r == Err::<u8, BackgammonError>(
                BackgammonError::InvalidColor,
            ),
    {
        match player {
            Color::White => Ok(25 - distance),
            Color::Black => Ok(distance),
            Color::Neither => Err(BackgammonError::InvalidColor),
        }
    }

    /// The move would carry the checker off the board.
    pub fn is_bear_off(&self, player: Color, move_: Move) -> (r: Result<bool, BackgammonError>)
        requires
            move_.start <= 25,
        ensures
            is_side(player) ==> r == Ok::<bool, BackgammonError>(bears_off(player, move_)),
            player == Color::Neither ==> r == Err::<bool, BackgammonError>(
                BackgammonError::InvalidColor,
            ),
    {
        let d = match self.distance(player, move_.start) {
            Ok(d) => d,
            Err(e) => {
                return Err(e);
            },
        };
        Ok(d <= move_.steps)
    }

    /// Distance of `player`'s rearmost checker; 0 when none is on the board.
    pub fn farthest(&self, player: Color) -> (r: Result<u8, BackgammonError>)
        ensures
            is_side(player) ==> r == Ok::<u8, BackgammonError>(
                farthest_distance(self.points@, player) as u8,
            ),
            player == Color::Neither ==> r == Err::<u8, BackgammonError>(
                BackgammonError::InvalidColor,
            ),
    {
        if matches!(player, Color::Neither) {
            return Err(BackgammonError::InvalidColor);
        }
        let mut d: u8 = 25;
        while d > 0
            invariant
            d <= 25,
            is_side(player),
            farthest_distance(self.points@, player) == farthest_upto(
                self.points@,
                player,
                d as int,
            ),
            decreases d,
        {
            let idx: usize = if matches!(player, Color::White) {
                (25 - d) as usize
            } else {
                d as usize
            };
            if self.points[idx].color == player {
                return Ok(d);
            }
            d = d - 1;
        }
        Ok(0)
    }

    /// Some start offers `player` a legal move of `die` pips, with bar
    /// re-entry taking absolute precedence; a pure lookahead that never
    /// mutates the board.
    pub fn has_move_for_die(&self, player: Color, die: u8) -> (r: Result<bool, BackgammonError>)
        requires
            1 <= die,
        ensures
            is_side(player) ==> r == Ok::<bool, BackgammonError>(
                has_any_move(self.points@, player, die),
            ),
            player == Color::Neither ==> r == Err::<bool, BackgammonError>(
                BackgammonError::InvalidColor,
            ),
    {
        let on_bar = match self.has_checker_on_bar(player) {
            Ok(b) => b,
            Err(e) => {
                return Err(e);
            },
        };
        if on_bar {
            let bar = match player.get_bar_index() {
                Ok(i) => i,
                Err(e) => {
                    return Err(e);
                },
            };
            let move_ = Move { start: bar as u8, steps: die };
            return self.is_valid_move(player, move_, false);
        }
        let mut i: u8 = 0;
        while i < 24
            invariant
            i <= 24,
            1 <= die,
            is_side(player),
            !occupied(self.points@, player, bar_index_of(player)),
            forall|j: int| 1 <= j <= i ==> !#[trigger] valid_from(self.points@, player, j, die),
            decreases 24 - i,
        {
            let move_ = Move { start: i + 1, steps: die };
            match self.is_valid_move(player, move_, false) {
                Ok(valid) => {
                    if valid {
                        proof {
                            assert(valid_from(self.points@, player, i as int + 1, die));
                        }
                        return Ok(true);
                    }
                },
                Err(_) => {},
            }
            i = i + 1;
        }
        Ok(false)
    }

    /// Board legality of one half-move; `verbose` is accepted for callers
    /// that want diagnostics but changes nothing here.
    #[allow(unused_variables)]
    pub fn is_valid_move(&self, player: Color, move_: Move, verbose: bool) -> (r: Result<
        bool,
        BackgammonError,
    >)
        requires
            move_.start <= 25,
            1 <= move_.steps,
        ensures
            is_side(player) ==> r == Ok::<bool, BackgammonError>(
                valid_move(self.points@, player, move_),
            ),
            player == Color::Neither && self.points@[move_.start as int].color != Color::Neither
                ==> r == Ok::<bool, BackgammonError>(false),
            player == Color::Neither && self.points@[move_.start as int].color == Color::Neither
                ==> r == Err::<bool, BackgammonError>(BackgammonError::InvalidColor),
    {
        if self.points[move_.start as usize].color != player {
            return Ok(false);
        }
        let distance = match self.distance(player, move_.start) {
            Ok(d) => d,
            Err(e) => {
                return Err(e);
            },
        };
        let bear = match self.is_bear_off(player, move_) {
            Ok(b) => b,
            Err(e) => {
                return Err(e);
            },
        };
        if bear {
            let farthest = match self.farthest(player) {
                Ok(f) => f,
                Err(e) => {
                    return Err(e);
                },
            };
            proof {
                lemma_farthest_range(self.points@, player, 25);
            }
            if farthest > 6 {
                // not all pieces are in the home board yet
                return Ok(false);
            }
            if distance != farthest && distance != move_.steps {
                return Ok(false);
            }
        } else {
            let end = match self.from_distance(player, distance - move_.steps) {
                Ok(e) => e,
                Err(e) => {
                    return Err(e);
                },
            };
            let cl = match self.is_closed(player, end) {
                Ok(c) => c,
                Err(e) => {
                    return Err(e);
                },
            };
            if cl {
                return Ok(false);
            }
        }
        Ok(true)
    }

    /// Send the lone checker on `idx` to its own color's bar and clear `idx`.
    pub fn hit(&mut self, idx: u8) -> (r: Result<(), BackgammonError>)
        requires
            idx <= 25,
            old(self).wf(),
            old(self).checkers(Color::White) <= 15,
            old(self).checkers(Color::Black) <= 15,
        ensures
            old(self).points@[idx as int].color == Color::Neither ==> r == Err::<
                (),
                BackgammonError,
            >(BackgammonError::InvalidColor) && *final(self) == *old(self),
            old(self).points@[idx as int].color != Color::Neither ==> r == Ok::<
                (),
                BackgammonError,
            >(()) && final(self).points@ == hit_points(old(self).points@, idx as int)
                && final(self).borne == old(self).borne,
    {
        let color = self.points[idx as usize].color;
        let bar = match color.get_bar_index() {
            Ok(b) => b,
            Err(e) => {
                return Err(e);
            },
        };
        proof {
            if self.points@[bar as int].color == color {
                lemma_point_le_count(self.points@, bar as int, color);
                lemma_count_nonneg(self.points@, color);
            }
        }
        let n = self.points[bar].n_pieces;
        self.points[bar] = Point { color, n_pieces: n + 1 };
        self.points[idx as usize] = Point { color: Color::Neither, n_pieces: 0 };
        proof {
            assert(self.points@ =~= hit_points(old(self).points@, idx as int));
        }
        Ok(())
    }

    /// Validate and apply one half-move for `player`: the start point loses a
    /// checker, and the checker is either borne off or placed on the landing
    /// point, hitting a lone opposing checker there first.  Fails with
    /// `InvalidMove` and an unchanged board when the move is illegal; per-color
    /// checker totals are preserved in every case.
    #[allow(unused_variables)]
    pub fn apply_move(&mut self, player: Color, move_: Move, verbose: bool) -> (r: Result<
        bool,
        BackgammonError,
    >)
        requires
            move_.start <= 25,
            1 <= move_.steps,
            old(self).wf(),
            old(self).checkers(Color::White) <= 15,
            old(self).checkers(Color::Black) <= 15,
        ensures
            is_side(player) && valid_move(old(self).points@, player, move_) ==> r == Ok::<
                bool,
                BackgammonError,
            >(true) && final(self).points@ == points_after(old(self).points@, player, move_)
                && final(self).borne@ == borne_after(old(self).borne@, player, move_),
            is_side(player) && !valid_move(old(self).points@, player, move_) ==> r == Err::<
                bool,
                BackgammonError,
            >(BackgammonError::InvalidMove) && *final(self) == *old(self),
            player == Color::Neither ==> *final(self) == *old(self) && r == (
            if old(self).points@[move_.start as int].color == Color::Neither {
                Err::<bool, BackgammonError>(BackgammonError::InvalidColor)
            } else {
                Err::<bool, BackgammonError>(BackgammonError::InvalidMove)
            }),
            final(self).wf(),
            final(self).checkers(Color::White) == old(self).checkers(Color::White),
            final(self).checkers(Color::Black) == old(self).checkers(Color::Black),
    {
        let valid = match self.is_valid_move(player, move_, verbose) {
            Ok(v) => v,
            Err(e) => {
                return Err(e);
            },
        };
        if !valid {
            return Err(BackgammonError::InvalidMove);
        }
        proof {
            assert(is_side(player));
            lemma_dec_point(self.points@, player, move_.start as int);
            lemma_move_preserves(self.points@, player, move_);
            lemma_count_nonneg(self.points@, Color::White);
            lemma_count_nonneg(self.points@, Color::Black);
        }
        let ghost points0 = self.points@;
        let start = move_.start as usize;
        let p = self.points[start];
        let new_start = if p.n_pieces == 1 {
            Point { color: Color::Neither, n_pieces: 0 }
        } else {
            Point { color: p.color, n_pieces: p.n_pieces - 1 }
        };
        self.points[start] = new_start;
        proof {
            assert(new_start == dec_point(points0[start as int]));
            assert(self.points@ == points0.update(start as int, dec_point(points0[start as int])));
        }
        let bear = match self.is_bear_off(player, move_) {
            Ok(b) => b,
            Err(_) => {
                return Err(BackgammonError::InvalidColor);
            },
        };
        if bear {
            let slot = match player.index() {
                Ok(i) => i,
                Err(_) => {
                    return Err(BackgammonError::InvalidColor);
                },
            };
            let b = self.borne[slot];
            self.borne[slot] = b + 1;
            proof {
                assert(self.points@ =~= points_after(points0, player, move_));
                assert(self.borne@ =~= borne_after(old(self).borne@, player, move_));
            }
            return Ok(true);
        }
        let distance = match self.distance(player, move_.start) {
            Ok(d) => d,
            Err(_) => {
                return Err(BackgammonError::InvalidColor);
            },
        };
        let end = match self.from_distance(player, distance - move_.steps) {
            Ok(e) => e,
            Err(_) => {
                return Err(BackgammonError::InvalidColor);
            },
        };
        let opp = match player.opponent() {
            Ok(o) => o,
            Err(_) => {
                return Err(BackgammonError::InvalidColor);
            },
        };
        proof {
            assert(1 <= end as int <= 24);
            assert(end as int == end_of(player, move_));
            assert(end as int != start as int);
        }
        let ghost points1 = self.points@;
        if self.points[end as usize].color == opp {
            proof {
                assert(points1[end as int] == points0[end as int]);
                assert(points1[end as int].n_pieces == 1);
                if points1[bar_index_of(opp) as int].color == opp {
                    lemma_point_le_count(points0, bar_index_of(opp), opp);
                }
            }
            match self.hit(end) {
                Ok(()) => {},
                Err(_) => {
                    return Err(BackgammonError::InvalidColor);
                },
            }
        }
        proof {
            if self.points@[end as int].color == player {
                lemma_point_le_count(self.points@, end as int, player);
            }
        }
        let q = self.points[end as usize];
        self.points[end as usize] = Point { color: player, n_pieces: q.n_pieces + 1 };
        proof {
            assert(self.points@ =~= points_after(points0, player, move_));
        }
        Ok(true)
    }
}

} // verus!
