//! The playing board of a Connect-Four game on a fixed 7-wide, 6-tall grid:
//! state, move application, outcome detection and the positional scoring
//! heuristic.
//!
//! The grid is stored row-major: cell `(x, y)` (column `x` in `0..7`, row `y`
//! in `0..6`, row `0` at the top, row `5` the floor) lives at index
//! `y * 7 + x`. Gravity is the structural invariant: a cell is occupied only
//! if every cell below it in the same column is occupied.

use vstd::prelude::*;

verus! {

/// The sentinel score that stands for a guaranteed win: larger than any sum
/// of the small per-line heuristics, and safely negatable.
pub const MAX_GAME_SCORE: isize = 100000;

/// One of the two alternating players' pieces.
#[derive(Clone, Copy, PartialEq, Eq, Structural, Debug)]
pub enum Piece {
    First,
    Second,
}

/// How a finished game ended.
#[derive(Clone, Copy, PartialEq, Eq, Structural, Debug)]
pub enum GameOutcome {
    Winner(Piece),
    Draw,
}

/// Why an insertion was rejected; the board is unchanged in either case.
#[derive(Clone, Copy, PartialEq, Eq, Structural, Debug)]
pub enum InsertionError {
    FilledSlot,
    GameFinished,
}

impl Piece {
    /// The sign convention for scoring: `First` counts positive, `Second`
    /// negative.
    pub open spec fn as_int_spec(self) -> int {
        match self {
            Piece::First => 1,
            Piece::Second => -1,
        }
    }

    /// The signed numeric value of the piece, `+1` or `-1`.
    pub fn as_int(&self) -> (r: isize)
        ensures
            r as int == self.as_int_spec(),
    {
        match self {
            Piece::First => 1,
            Piece::Second => -1,
        }
    }

    /// The complement of the piece.
    pub open spec fn flip_spec(self) -> Piece {
        match self {
            Piece::First => Piece::Second,
            Piece::Second => Piece::First,
        }
    }

    /// Produces the other piece.
    pub fn flip(&self) -> (r: Piece)
        ensures
            r == self.flip_spec(),
    {
        match self {
            Piece::First => Piece::Second,
            Piece::Second => Piece::First,
        }
    }
}

/// The cell of grid `g` at column `x`, row `y` (row 0 on top, row 5 the
/// floor).
pub open spec fn cell_of(g: Seq<Option<Piece>>, x: int, y: int) -> Option<Piece> {
    g[y * 7 + x]
}

/// A well-formed grid: 42 cells, and gravity holds (an occupied cell has an
/// occupied cell directly below it, down to the floor).
pub open spec fn grid_wf(g: Seq<Option<Piece>>) -> bool {
    &&& g.len() == 42
    &&& forall|x: int, y: int|
        0 <= x < 7 && 0 <= y < 5 && (#[trigger] cell_of(g, x, y)) is Some ==> cell_of(
            g,
            x,
            y + 1,
        ) is Some
}

/// Column `c` (0-based) can still take a piece: its top cell is empty.
pub open spec fn slot_open(g: Seq<Option<Piece>>, c: int) -> bool {
    cell_of(g, c, 0) is None
}

/// Every column is filled to the top.
pub open spec fn grid_full(g: Seq<Option<Piece>>) -> bool {
    forall|c: int| 0 <= c < 7 ==> !slot_open(g, c)
}

/// 1 if the cell at `(x, y)` holds `p`, else 0.
pub open spec fn cell_holds(g: Seq<Option<Piece>>, x: int, y: int, p: Piece) -> int {
    if cell_of(g, x, y) == Some(p) {
        1
    } else {
        0
    }
}

/// How many of the 4 cells of the line starting at `(x, y)` and stepping by
/// `(dx, dy)` hold piece `p`.
pub open spec fn piece_count(
    g: Seq<Option<Piece>>,
    x: int,
    y: int,
    dx: int,
    dy: int,
    p: Piece,
) -> int {
    cell_holds(g, x, y, p) + cell_holds(g, x + dx, y + dy, p) + cell_holds(
        g,
        x + 2 * dx,
        y + 2 * dy,
        p,
    ) + cell_holds(g, x + 3 * dx, y + 3 * dy, p)
}

/// The score of one 4-cell line, from `First`'s perspective: the sentinel if
/// one player holds all 4 cells, otherwise the small difference of counts.
pub open spec fn line_score(g: Seq<Option<Piece>>, x: int, y: int, dx: int, dy: int) -> int {
    let fc = piece_count(g, x, y, dx, dy, Piece::First);
    let sc = piece_count(g, x, y, dx, dy, Piece::Second);
    if fc == 4 {
        MAX_GAME_SCORE as int
    } else if sc == 4 {
        -(MAX_GAME_SCORE as int)
    } else {
        fc - sc
    }
}

/// The 69 scorable 4-cell lines of the grid, numbered in the order the
/// aggregate score walks them: 24 horizontal, then 21 vertical, then 12
/// rising and 12 falling diagonals. `line_x(i)` is line `i`'s starting
/// column.
pub open spec fn line_x(i: int) -> int {
    if i < 24 {
        i % 4
    } else if i < 45 {
        (i - 24) % 7
    } else if i < 57 {
        (i - 45) % 4
    } else {
        (i - 57) % 4
    }
}

/// Starting row of line `i`.
pub open spec fn line_y(i: int) -> int {
    if i < 24 {
        i / 4
    } else if i < 45 {
        (i - 24) / 7
    } else if i < 57 {
        (i - 45) / 4
    } else {
        3 + (i - 57) / 4
    }
}

/// Column step of line `i`.
pub open spec fn line_dx(i: int) -> int {
    if 24 <= i < 45 {
        0
    } else {
        1
    }
}

/// Row step of line `i`.
pub open spec fn line_dy(i: int) -> int {
    if i < 24 {
        0
    } else if i < 57 {
        1
    } else {
        -1
    }
}

/// The score of line `i` of the grid.
pub open spec fn score_at(g: Seq<Option<Piece>>, i: int) -> int {
    line_score(g, line_x(i), line_y(i), line_dx(i), line_dy(i))
}

/// The plain sum of the line scores of lines `i..69`, with no
/// short-circuiting.
pub open spec fn suffix_sum(g: Seq<Option<Piece>>, i: int) -> int
    decreases 69 - i,
{
    if i >= 69 {
        0
    } else {
        score_at(g, i) + suffix_sum(g, i + 1)
    }
}

/// The aggregate score of lines `i..69` as the evaluation computes it: the
/// first line worth the sentinel decides the result by itself; otherwise the
/// line scores are summed. A genuine sum never reaches the sentinel (at most
/// 69 lines, each within ±3), so a sentinel value always means a line with 4
/// equal pieces was found.
pub open spec fn total_from(g: Seq<Option<Piece>>, i: int) -> int
    decreases 69 - i,
{
    if i >= 69 {
        0
    } else {
        let s = score_at(g, i);
        if s == MAX_GAME_SCORE as int || s == -(MAX_GAME_SCORE as int) {
            s
        } else {
            let rest = total_from(g, i + 1);
            if rest == MAX_GAME_SCORE as int || rest == -(MAX_GAME_SCORE as int) {
                rest
            } else {
                s + rest
            }
        }
    }
}

/// The aggregate score of the whole grid, ignoring any recorded outcome.
pub open spec fn grid_score(g: Seq<Option<Piece>>) -> int {
    total_from(g, 0)
}

/// Whether `v` is one of the two sentinel scores.
pub open spec fn is_sentinel(v: int) -> bool {
    v == MAX_GAME_SCORE as int || v == -(MAX_GAME_SCORE as int)
}

/// A line score that is not the sentinel is a count difference within ±3.
pub proof fn lemma_line_score_small(g: Seq<Option<Piece>>, i: int)
    requires
        !is_sentinel(score_at(g, i)),
    ensures
        -3 <= score_at(g, i) <= 3,
{
    lemma_counts_bounded(g, line_x(i), line_y(i), line_dx(i), line_dy(i));
}

/// Some 4-cell line of the grid is fully held by piece `p`.
pub open spec fn has_four(g: Seq<Option<Piece>>, p: Piece) -> bool {
    exists|i: int|
        0 <= i < 69 && #[trigger] piece_count(g, line_x(i), line_y(i), line_dx(i), line_dy(i), p)
            == 4
}

/// Both players' counts on any line lie between 0 and 4.
proof fn lemma_counts_bounded(g: Seq<Option<Piece>>, x: int, y: int, dx: int, dy: int)
    ensures
        0 <= piece_count(g, x, y, dx, dy, Piece::First) <= 4,
        0 <= piece_count(g, x, y, dx, dy, Piece::Second) <= 4,
{
    assert(0 <= cell_holds(g, x, y, Piece::First) <= 1);
    assert(0 <= cell_holds(g, x + dx, y + dy, Piece::First) <= 1);
    assert(0 <= cell_holds(g, x + 2 * dx, y + 2 * dy, Piece::First) <= 1);
    assert(0 <= cell_holds(g, x + 3 * dx, y + 3 * dy, Piece::First) <= 1);
    assert(0 <= cell_holds(g, x, y, Piece::Second) <= 1);
    assert(0 <= cell_holds(g, x + dx, y + dy, Piece::Second) <= 1);
    assert(0 <= cell_holds(g, x + 2 * dx, y + 2 * dy, Piece::Second) <= 1);
    assert(0 <= cell_holds(g, x + 3 * dx, y + 3 * dy, Piece::Second) <= 1);
}

/// A line is worth a sentinel exactly when one player holds all 4 of its
/// cells; the positive sentinel goes with `First`, the negative with
/// `Second`.
pub proof fn lemma_sentinel_line(g: Seq<Option<Piece>>, i: int)
    ensures
        (score_at(g, i) == MAX_GAME_SCORE as int) <==> piece_count(
            g,
            line_x(i),
            line_y(i),
            line_dx(i),
            line_dy(i),
            Piece::First,
        ) == 4,
        (score_at(g, i) == -(MAX_GAME_SCORE as int)) <==> (piece_count(
            g,
            line_x(i),
            line_y(i),
            line_dx(i),
            line_dy(i),
            Piece::First,
        ) != 4 && piece_count(g, line_x(i), line_y(i), line_dx(i), line_dy(i), Piece::Second)
            == 4),
{
    lemma_counts_bounded(g, line_x(i), line_y(i), line_dx(i), line_dy(i));
}

/// If some line from `i` on is worth a sentinel, the aggregate from `i` is a
/// sentinel too.
proof fn lemma_total_from_any_sentinel(g: Seq<Option<Piece>>, i: int)
    requires
        0 <= i <= 69,
        exists|j: int| i <= j < 69 && is_sentinel(#[trigger] score_at(g, j)),
    ensures
        is_sentinel(total_from(g, i)),
    decreases 69 - i,
{
    if !is_sentinel(score_at(g, i)) {
        let j = choose|j: int| i <= j < 69 && is_sentinel(#[trigger] score_at(g, j));
        assert(i + 1 <= j < 69);
        lemma_total_from_any_sentinel(g, i + 1);
    }
}

/// If every sentinel-worth line from `i` on is worth exactly `v` and one
/// such line exists, the aggregate from `i` is `v`.
proof fn lemma_total_from_uniform(g: Seq<Option<Piece>>, i: int, v: int)
    requires
        0 <= i <= 69,
        is_sentinel(v),
        exists|j: int| i <= j < 69 && #[trigger] score_at(g, j) == v,
        forall|j: int| i <= j < 69 && is_sentinel(#[trigger] score_at(g, j)) ==> score_at(g, j)
            == v,
    ensures
        total_from(g, i) == v,
    decreases 69 - i,
{
    if !is_sentinel(score_at(g, i)) {
        let j = choose|j: int| i <= j < 69 && #[trigger] score_at(g, j) == v;
        assert(i + 1 <= j < 69);
        lemma_total_from_uniform(g, i + 1, v);
    }
}

/// A grid where one player holds a full 4-cell line — horizontal, vertical
/// or diagonal — and the other player holds none is scored with that
/// player's sentinel, so the recomputed outcome names that player the
/// winner.
pub proof fn lemma_win_detected(g: Seq<Option<Piece>>, p: Piece)
    requires
        has_four(g, p),
        !has_four(g, p.flip_spec()),
    ensures
        grid_score(g) == MAX_GAME_SCORE as int * p.as_int_spec(),
        next_outcome(g) == Some(GameOutcome::Winner(p)),
{
    let v = MAX_GAME_SCORE as int * p.as_int_spec();
    let i = choose|i: int|
        0 <= i < 69 && #[trigger] piece_count(g, line_x(i), line_y(i), line_dx(i), line_dy(i), p)
            == 4;
    lemma_sentinel_line(g, i);
    assert(score_at(g, i) == v);
    assert forall|j: int| 0 <= j < 69 && is_sentinel(#[trigger] score_at(g, j)) implies score_at(
        g,
        j,
    ) == v by {
        lemma_sentinel_line(g, j);
    }
    lemma_total_from_uniform(g, 0, v);
}

/// A full grid where neither player holds a 4-cell line is recomputed as a
/// draw.
pub proof fn lemma_draw_detected(g: Seq<Option<Piece>>)
    requires
        grid_full(g),
        !has_four(g, Piece::First),
        !has_four(g, Piece::Second),
    ensures
        next_outcome(g) == Some(GameOutcome::Draw),
{
    assert forall|j: int| 0 <= j < 69 implies !is_sentinel(#[trigger] score_at(g, j)) by {
        lemma_sentinel_line(g, j);
    }
    lemma_total_from_sum(g, 0);
}

/// A grid where neither player holds a full line and some column is still
/// open is recomputed as unfinished, so the insertion that produced it
/// passes the turn on.
pub proof fn lemma_open_game(g: Seq<Option<Piece>>)
    requires
        !has_four(g, Piece::First),
        !has_four(g, Piece::Second),
        !grid_full(g),
    ensures
        next_outcome(g) is None,
{
    assert forall|j: int| 0 <= j < 69 implies !is_sentinel(#[trigger] score_at(g, j)) by {
        lemma_sentinel_line(g, j);
    }
    lemma_total_from_sum(g, 0);
}

/// The evaluation of a board is exactly one of the two sentinels whenever
/// some line is fully held by one player or a winner is already recorded,
/// and otherwise stays in the small range bounded by ±4 per line.
pub proof fn lemma_total_score_classified(b: Board)
    ensures
        has_four(b.grid(), Piece::First) || has_four(b.grid(), Piece::Second) || (b.outcome
            matches Some(GameOutcome::Winner(_))) ==> is_sentinel(b.spec_total_score()),
        !(has_four(b.grid(), Piece::First) || has_four(b.grid(), Piece::Second) || (b.outcome
            matches Some(GameOutcome::Winner(_)))) ==> -276 <= b.spec_total_score() <= 276,
{
    let g = b.grid();
    if b.outcome matches Some(GameOutcome::Winner(_)) {
    } else if has_four(g, Piece::First) {
        let i = choose|i: int|
            0 <= i < 69 && #[trigger] piece_count(
                g,
                line_x(i),
                line_y(i),
                line_dx(i),
                line_dy(i),
                Piece::First,
            ) == 4;
        lemma_sentinel_line(g, i);
        lemma_total_from_any_sentinel(g, 0);
    } else if has_four(g, Piece::Second) {
        let i = choose|i: int|
            0 <= i < 69 && #[trigger] piece_count(
                g,
                line_x(i),
                line_y(i),
                line_dx(i),
                line_dy(i),
                Piece::Second,
            ) == 4;
        lemma_sentinel_line(g, i);
        lemma_total_from_any_sentinel(g, 0);
    } else {
        assert forall|j: int| 0 <= j < 69 implies !is_sentinel(#[trigger] score_at(g, j)) by {
            lemma_sentinel_line(g, j);
        }
        lemma_total_from_sum(g, 0);
    }
}

/// If the lines before `k` are all worth less than the sentinel and line `k`
/// is worth a sentinel, the whole aggregate is exactly line `k`'s sentinel.
pub proof fn lemma_total_from_first_sentinel(g: Seq<Option<Piece>>, i: int, k: int)
    requires
        0 <= i <= k < 69,
        forall|j: int| i <= j < k ==> !is_sentinel(#[trigger] score_at(g, j)),
        is_sentinel(score_at(g, k)),
    ensures
        total_from(g, i) == score_at(g, k),
    decreases k - i,
{
    if i < k {
        lemma_total_from_first_sentinel(g, i + 1, k);
    }
}

/// With no sentinel-worth line from `i` on, the aggregate is the plain sum,
/// and that sum stays within ±3 per line.
pub proof fn lemma_total_from_sum(g: Seq<Option<Piece>>, i: int)
    requires
        0 <= i <= 69,
        forall|j: int| i <= j < 69 ==> !is_sentinel(#[trigger] score_at(g, j)),
    ensures
        total_from(g, i) == suffix_sum(g, i),
        -3 * (69 - i) <= suffix_sum(g, i) <= 3 * (69 - i),
    decreases 69 - i,
{
    if i < 69 {
        lemma_total_from_sum(g, i + 1);
        lemma_line_score_small(g, i);
    }
}

/// What the evaluation returns for a board with grid `g` and recorded
/// outcome `oc`: a recorded winner overrides every line, otherwise the
/// aggregate grid score.
pub open spec fn total_of(g: Seq<Option<Piece>>, oc: Option<GameOutcome>) -> int {
    match oc {
        Some(GameOutcome::Winner(p)) => MAX_GAME_SCORE as int * p.as_int_spec(),
        _ => grid_score(g),
    }
}

/// The row a dropped piece reaches in column `col` when released at row `y`:
/// it keeps falling while the cell below is empty.
pub open spec fn drop_from(g: Seq<Option<Piece>>, col: int, y: int) -> int
    decreases 5 - y,
{
    if y < 5 && cell_of(g, col, y + 1) is None {
        drop_from(g, col, y + 1)
    } else {
        y
    }
}

/// The row where a piece dropped into column `col` comes to rest.
pub open spec fn landing_row(g: Seq<Option<Piece>>, col: int) -> int {
    drop_from(g, col, 0)
}

/// The grid after piece `turn` is dropped into column `col` (0-based).
pub open spec fn placed_grid(g: Seq<Option<Piece>>, col: int, turn: Piece) -> Seq<Option<Piece>> {
    g.update(landing_row(g, col) * 7 + col, Some(turn))
}

/// The outcome recorded for a board with grid `g` and no outcome yet: a
/// sentinel aggregate score names a winner; a full board with no winning
/// line is a draw; otherwise play goes on. A win always takes precedence
/// over a simultaneous draw.
pub open spec fn next_outcome(g: Seq<Option<Piece>>) -> Option<GameOutcome> {
    if grid_score(g) == MAX_GAME_SCORE as int {
        Some(GameOutcome::Winner(Piece::First))
    } else if grid_score(g) == -(MAX_GAME_SCORE as int) {
        Some(GameOutcome::Winner(Piece::Second))
    } else if grid_full(g) {
        Some(GameOutcome::Draw)
    } else {
        None
    }
}

/// The fixed, center-biased order in which columns (0-based) are offered to
/// the search: the center first, then alternating outward. The order is a
/// pruning heuristic the search's tie-breaking relies on.
pub open spec fn move_order() -> Seq<int> {
    seq![3int, 2, 4, 1, 5, 0, 6]
}

/// The playable columns (1-based) of grid `g`, from the `k`-th preference of
/// the fixed order on: each column whose top cell is empty, in order.
pub open spec fn vm_from(g: Seq<Option<Piece>>, k: int) -> Seq<int>
    decreases 7 - k,
{
    if !(0 <= k < 7) {
        Seq::empty()
    } else {
        let c = move_order()[k];
        if slot_open(g, c) {
            seq![c + 1] + vm_from(g, k + 1)
        } else {
            vm_from(g, k + 1)
        }
    }
}

/// All playable columns (1-based) of grid `g`, in the fixed center-biased
/// order.
pub open spec fn spec_valid_moves(g: Seq<Option<Piece>>) -> Seq<int> {
    vm_from(g, 0)
}

/// The `k`-th column (0-based) of the fixed center-biased order.
fn order_col(k: usize) -> (c: usize)
    requires
        k < 7,
    ensures
        c as int == move_order()[k as int],
        c < 7,
{
    match k {
        0 => 3,
        1 => 2,
        2 => 4,
        3 => 1,
        4 => 5,
        5 => 0,
        _ => 6,
    }
}

/// The starting cell and step of line `i`, as executable values.
fn line_coords(i: usize) -> (r: (usize, usize, isize, isize))
    requires
        i < 69,
    ensures
        r.0 as int == line_x(i as int),
        r.1 as int == line_y(i as int),
        r.2 as int == line_dx(i as int),
        r.3 as int == line_dy(i as int),
        r.0 < 7,
        r.1 < 6,
        -1 <= r.2 <= 1,
        -1 <= r.3 <= 1,
        !(r.2 == 0 && r.3 == 0),
        0 <= r.0 as int + 3 * (r.2 as int),
        r.0 as int + 3 * (r.2 as int) < 7,
        0 <= r.1 as int + 3 * (r.3 as int),
        r.1 as int + 3 * (r.3 as int) < 6,
{
    if i < 24 {
        (i % 4, i / 4, 1, 0)
    } else if i < 45 {
        let j = i - 24;
        (j % 7, j / 7, 0, 1)
    } else if i < 57 {
        let j = i - 45;
        (j % 4, j / 4, 1, 1)
    } else {
        let j = i - 57;
        (j % 4, 3 + j / 4, 1, -1)
    }
}

/// The game state: the grid plus whose turn it is and, once the game has
/// ended, how it ended.
pub struct Board {
    pub cells: Vec<Option<Piece>>,
    pub outcome: Option<GameOutcome>,
    pub current_turn: Piece,
}

impl Clone for Board {
    /// An independent copy with the same grid, outcome and turn, so that the
    /// search can explore a move without touching the original.
    fn clone(&self) -> (r: Self)
        ensures
            r.grid() == self.grid(),
            r.outcome == self.outcome,
            r.current_turn == self.current_turn,
    {
        let mut cells: Vec<Option<Piece>> = Vec::new();
        let mut i: usize = 0;
        while i < self.cells.len()
            invariant
                i <= self.cells@.len(),
                cells@ == self.cells@.subrange(0, i as int),
            decreases self.cells@.len() - i,
        {
            cells.push(self.cells[i]);
            proof {
                assert(cells@ =~= self.cells@.subrange(0, i as int + 1));
            }
            i += 1;
        }
        proof {
            assert(cells@ =~= self.cells@);
        }
        Board { cells, outcome: self.outcome, current_turn: self.current_turn }
    }
}

impl Board {
    /// The mathematical value of the grid, as a sequence of 42 cells.
    pub open spec fn grid(self) -> Seq<Option<Piece>> {
        self.cells@
    }

    /// The board's structural invariant.
    pub open spec fn wf(self) -> bool {
        grid_wf(self.grid())
    }

    /// An empty board: no pieces, `First` to move, no outcome.
    pub fn new() -> (b: Board)
        ensures
            b.wf(),
            forall|i: int| 0 <= i < 42 ==> b.grid()[i] is None,
            b.outcome is None,
            b.current_turn == Piece::First,
    {
        let mut cells: Vec<Option<Piece>> = Vec::new();
        let mut i: usize = 0;
        while i < 42
            invariant
                i <= 42,
                cells@.len() == i as int,
                forall|j: int| 0 <= j < i as int ==> cells@[j] is None,
            decreases 42 - i,
        {
            cells.push(None);
            i += 1;
        }
        Board { cells, outcome: None, current_turn: Piece::First }
    }

    /// Reads one cell of the grid, for rendering and inspection.
    pub fn cell_at(&self, x: usize, y: usize) -> (r: Option<Piece>)
        requires
            self.wf(),
            x < 7,
            y < 6,
        ensures
            r == cell_of(self.grid(), x as int, y as int),
    {
        self.cells[y * 7 + x]
    }

    /// What the board evaluates to, from `First`'s perspective.
    pub open spec fn spec_total_score(self) -> int {
        total_of(self.grid(), self.outcome)
    }

    /// The score of the 4-cell line starting at `(x, y)` and stepping by
    /// `(dx, dy)`, from `First`'s perspective: once a winner is recorded,
    /// every line reports the winner's sentinel; otherwise the sentinel for a
    /// line fully held by one player, else the small count difference.
    /// Counts each player's pieces among the 4 cells of one line.
    #[verifier::rlimit(50)]
    fn line_counts(&self, x: usize, y: usize, dx: isize, dy: isize) -> (r: (isize, isize))
        requires
            self.wf(),
            x < 7,
            y < 6,
            -1 <= dx <= 1,
            -1 <= dy <= 1,
            0 <= x as int + 3 * (dx as int),
            x as int + 3 * (dx as int) < 7,
            0 <= y as int + 3 * (dy as int),
            y as int + 3 * (dy as int) < 6,
        ensures
            r.0 as int == piece_count(
                self.grid(),
                x as int,
                y as int,
                dx as int,
                dy as int,
                Piece::First,
            ),
            r.1 as int == piece_count(
                self.grid(),
                x as int,
                y as int,
                dx as int,
                dy as int,
                Piece::Second,
            ),
            0 <= r.0 <= 4,
            0 <= r.1 <= 4,
    {
        let ghost g = self.grid();
        let mut cx = x;
        let mut cy = y;
        let mut first_points: isize = 0;
        let mut second_points: isize = 0;

        match self.cell_at(cx, cy) {
            Some(Piece::First) => first_points += 1,
            Some(Piece::Second) => second_points += 1,
            None => {},
        }
        cx = (cx as isize + dx) as usize;
        cy = (cy as isize + dy) as usize;
        assert(cx as int == x as int + dx as int && cy as int == y as int + dy as int);

        match self.cell_at(cx, cy) {
            Some(Piece::First) => first_points += 1,
            Some(Piece::Second) => second_points += 1,
            None => {},
        }
        cx = (cx as isize + dx) as usize;
        cy = (cy as isize + dy) as usize;
        assert(cx as int == x as int + 2 * dx as int && cy as int == y as int + 2 * dy as int);

        match self.cell_at(cx, cy) {
            Some(Piece::First) => first_points += 1,
            Some(Piece::Second) => second_points += 1,
            None => {},
        }
        cx = (cx as isize + dx) as usize;
        cy = (cy as isize + dy) as usize;
        assert(cx as int == x as int + 3 * dx as int && cy as int == y as int + 3 * dy as int);

        match self.cell_at(cx, cy) {
            Some(Piece::First) => first_points += 1,
            Some(Piece::Second) => second_points += 1,
            None => {},
        }

        (first_points, second_points)
    }

    pub fn score(&self, x: usize, y: usize, dx: isize, dy: isize) -> (r: isize)
        requires
            self.wf(),
            x < 7,
            y < 6,
            -1 <= dx <= 1,
            -1 <= dy <= 1,
            !(dx == 0 && dy == 0),
            0 <= x as int + 3 * (dx as int),
            x as int + 3 * (dx as int) < 7,
            0 <= y as int + 3 * (dy as int),
            y as int + 3 * (dy as int) < 6,
        ensures
            r as int == (match self.outcome {
                Some(GameOutcome::Winner(p)) => MAX_GAME_SCORE as int * p.as_int_spec(),
                _ => line_score(self.grid(), x as int, y as int, dx as int, dy as int),
            }),
            -(MAX_GAME_SCORE as int) <= r as int <= MAX_GAME_SCORE as int,
    {
        if let Some(GameOutcome::Winner(piece)) = self.outcome {
            return MAX_GAME_SCORE * piece.as_int();
        }
        let (first_points, second_points) = self.line_counts(x, y, dx, dy);

        if first_points == 4 {
            MAX_GAME_SCORE
        } else if second_points == 4 {
            -MAX_GAME_SCORE
        } else {
            first_points - second_points
        }
    }

    /// Recomputes the outcome after a successful insertion: a full board is
    /// tentatively a draw, and a sentinel aggregate score then names the
    /// winner, overriding the draw. Returns at once if an outcome is already
    /// set, so a repeated call never changes anything.
    pub fn update_outcome(&mut self)
        requires
            old(self).wf(),
        ensures
            final(self).wf(),
            final(self).grid() == old(self).grid(),
            final(self).current_turn == old(self).current_turn,
            old(self).outcome is Some ==> *final(self) == *old(self),
            old(self).outcome is None ==> final(self).outcome == next_outcome(old(self).grid()),
    {
        if self.outcome.is_some() {
            return ;
        }
        let ghost g = self.grid();
        let mut any_empty = false;
        let mut c: usize = 0;
        while c < 7
            invariant
                self.wf(),
                g == self.grid(),
                c <= 7,
                any_empty <==> exists|cc: int| 0 <= cc < c as int && slot_open(g, cc),
            decreases 7 - c,
        {
            if self.is_slot_empty(c) {
                any_empty = true;
            }
            c += 1;
        }
        if !any_empty {
            assert(grid_full(g));
            self.outcome = Some(GameOutcome::Draw);
        }
        let total_score = self.get_total_score();
        if total_score == MAX_GAME_SCORE {
            self.outcome = Some(GameOutcome::Winner(Piece::First));
        } else if total_score == -MAX_GAME_SCORE {
            self.outcome = Some(GameOutcome::Winner(Piece::Second));
        }
    }

    /// Drops the current player's piece into column `col` (1-based). Fails
    /// with `GameFinished` once an outcome is set and with `FilledSlot` when
    /// the column has no empty cell, leaving the board unchanged either way.
    /// On success the piece occupies the lowest empty cell of the column,
    /// the outcome is recomputed, and — only if the game is still open —
    /// the turn passes to the other player.
    pub fn insert_at(&mut self, col: usize) -> (r: Result<(), InsertionError>)
        requires
            old(self).wf(),
            1 <= col <= 7,
        ensures
            final(self).wf(),
            old(self).outcome is Some ==> r == Err::<(), InsertionError>(
                InsertionError::GameFinished,
            ) && *final(self) == *old(self),
            old(self).outcome is None && !slot_open(old(self).grid(), col as int - 1) ==> r
                == Err::<(), InsertionError>(InsertionError::FilledSlot) && *final(self) == *old(self),
            old(self).outcome is None && slot_open(old(self).grid(), col as int - 1) ==> ({
                let g0 = old(self).grid();
                let c = col as int - 1;
                let row = landing_row(g0, c);
                let g1 = placed_grid(g0, c, old(self).current_turn);
                &&& r == Ok::<(), InsertionError>(())
                &&& 0 <= row < 6
                &&& cell_of(g0, c, row) is None
                &&& (forall|yy: int| row < yy < 6 ==> cell_of(g0, c, yy) is Some)
                &&& final(self).grid() == g1
                &&& final(self).outcome == next_outcome(g1)
                &&& final(self).current_turn == (if next_outcome(g1) is None {
                    old(self).current_turn.flip_spec()
                } else {
                    old(self).current_turn
                })
            }),
    {
        if self.outcome.is_some() {
            return Err(InsertionError::GameFinished);
        }
        let ghost g0 = self.grid();
        let c = col - 1;

        // Simulate the piece dropping down the column.
        let mut y: usize = 0;
        while y < 5 && self.cells[(y + 1) * 7 + c].is_none()
            invariant
                self.wf(),
                *self == *old(self),
                g0 == self.grid(),
                c as int == col as int - 1,
                c < 7,
                y <= 5,
                drop_from(g0, c as int, y as int) == landing_row(g0, c as int),
                y > 0 ==> cell_of(g0, c as int, y as int) is None,
            decreases 5 - y,
        {
            y += 1;
        }
        assert(landing_row(g0, c as int) == y as int);

        if self.cells[y * 7 + c].is_none() {
            proof {
                if !slot_open(g0, c as int) {
                    // The top cell is occupied, so by gravity the whole
                    // column is, contradicting the empty landing cell.
                    assert(cell_of(g0, c as int, 1) is Some);
                    assert(cell_of(g0, c as int, 2) is Some);
                    assert(cell_of(g0, c as int, 3) is Some);
                    assert(cell_of(g0, c as int, 4) is Some);
                    assert(cell_of(g0, c as int, 5) is Some);
                    assert(false);
                }
            }
            let turn = self.current_turn;
            self.cells[y * 7 + c] = Some(turn);
            proof {
                let cc = c as int;
                let row = y as int;
                let g1 = self.grid();
                assert(g1 == placed_grid(g0, cc, turn));
                assert(row == 5 || cell_of(g0, cc, row + 1) is Some);
                assert forall|yy: int| row < yy < 6 implies cell_of(g0, cc, yy) is Some by {
                    assert(row + 1 > 5 || cell_of(g0, cc, row + 1) is Some);
                    assert(row + 2 > 5 || cell_of(g0, cc, row + 2) is Some);
                    assert(row + 3 > 5 || cell_of(g0, cc, row + 3) is Some);
                    assert(row + 4 > 5 || cell_of(g0, cc, row + 4) is Some);
                    assert(row + 5 > 5 || cell_of(g0, cc, row + 5) is Some);
                }
                assert forall|xx: int, yy: int|
                    0 <= xx < 7 && 0 <= yy < 5 && (#[trigger] cell_of(g1, xx, yy)) is Some
                    implies cell_of(g1, xx, yy + 1) is Some by {
                    if xx == cc && yy == row {
                        assert(cell_of(g1, cc, row + 1) == cell_of(g0, cc, row + 1));
                    } else {
                        assert(yy * 7 + xx != row * 7 + cc);
                        assert(cell_of(g1, xx, yy) == cell_of(g0, xx, yy));
                        assert(cell_of(g0, xx, yy + 1) is Some);
                        if xx == cc && yy + 1 == row {
                            assert(cell_of(g0, cc, row) is Some);
                            assert(false);
                        }
                        assert(cell_of(g1, xx, yy + 1) == cell_of(g0, xx, yy + 1));
                    }
                }
                assert(self.wf());
            }

            // Record a winner or draw if this move produced one.
            self.update_outcome();

            // Pass the turn on only while the game is still open.
            if self.outcome.is_none() {
                self.current_turn = self.current_turn.flip();
            }
            Ok(())
        } else {
            assert(y == 0);
            assert(!slot_open(g0, c as int));
            Err(InsertionError::FilledSlot)
        }
    }

    /// Sums the scores of every 4-cell line of the board — 24 horizontal,
    /// 21 vertical and 12 of each diagonal slope — stopping at the first
    /// line worth a sentinel, which then is the result by itself. Used both
    /// for outcome detection and as the leaf value of the search.
    pub fn get_total_score(&self) -> (r: isize)
        requires
            self.wf(),
        ensures
            r as int == self.spec_total_score(),
            -(MAX_GAME_SCORE as int) <= r as int <= MAX_GAME_SCORE as int,
    {
        if let Some(GameOutcome::Winner(p)) = self.outcome {
            return MAX_GAME_SCORE * p.as_int();
        }
        let ghost g = self.grid();
        let mut total: isize = 0;
        let mut i: usize = 0;
        while i < 69
            invariant
                self.wf(),
                g == self.grid(),
                !(self.outcome matches Some(GameOutcome::Winner(_))),
                i <= 69,
                forall|j: int| 0 <= j < i as int ==> !is_sentinel(#[trigger] score_at(g, j)),
                total as int + suffix_sum(g, i as int) == suffix_sum(g, 0),
                -3 * (i as int) <= total as int <= 3 * (i as int),
            decreases 69 - i,
        {
            let (x, y, dx, dy) = line_coords(i);
            let s = self.score(x, y, dx, dy);
            assert(s as int == score_at(g, i as int));
            if s == MAX_GAME_SCORE || s == -MAX_GAME_SCORE {
                proof {
                    lemma_total_from_first_sentinel(g, 0, i as int);
                }
                return s;
            }
            proof {
                lemma_line_score_small(g, i as int);
            }
            total = total + s;
            i += 1;
        }
        proof {
            lemma_total_from_sum(g, 0);
        }
        total
    }

    /// The columns (1-based) that can still take a piece, in the fixed
    /// center-biased order 4, 3, 5, 2, 6, 1, 7.
    pub fn get_valid_moves(&self) -> (moves: Vec<usize>)
        requires
            self.wf(),
        ensures
            moves@.len() == spec_valid_moves(self.grid()).len(),
            forall|j: int|
                0 <= j < moves@.len() ==> moves@[j] as int == spec_valid_moves(self.grid())[j],
            forall|j: int|
                0 <= j < moves@.len() ==> 1 <= #[trigger] moves@[j] <= 7 && slot_open(
                    self.grid(),
                    moves@[j] as int - 1,
                ),
    {
        let ghost g = self.grid();
        let ghost f = |m: usize| m as int;
        let mut moves: Vec<usize> = Vec::new();
        let mut k: usize = 0;
        while k < 7
            invariant
                self.wf(),
                g == self.grid(),
                k <= 7,
                spec_valid_moves(g) == moves@.map_values(f) + vm_from(g, k as int),
                f == (|m: usize| m as int),
                forall|j: int|
                    0 <= j < moves@.len() ==> 1 <= #[trigger] moves@[j] <= 7 && slot_open(
                        g,
                        moves@[j] as int - 1,
                    ),
            decreases 7 - k,
        {
            let c = order_col(k);
            if self.is_slot_empty(c) {
                let ghost before = moves@;
                moves.push(c + 1);
                proof {
                    assert(moves@.map_values(f) =~= before.map_values(f).push(
                        (c + 1) as int,
                    ));
                    assert(before.map_values(f).push((c + 1) as int) =~= before.map_values(f)
                        + seq![(c + 1) as int]);
                    assert((before.map_values(f) + seq![(c + 1) as int]) + vm_from(
                        g,
                        k as int + 1,
                    ) =~= before.map_values(f) + (seq![(c + 1) as int] + vm_from(g, k as int + 1)));
                }
            }
            k += 1;
        }
        proof {
            assert(vm_from(g, 7) =~= Seq::<int>::empty());
            assert(moves@.map_values(f) + Seq::<int>::empty() =~= moves@.map_values(f));
            assert(forall|j: int|
                0 <= j < moves@.len() ==> moves@[j] as int == #[trigger] moves@.map_values(f)[j]);
        }
        moves
    }

    /// Whether column `col` (0-based) still has room for a piece.
    pub fn is_slot_empty(&self, col: usize) -> (r: bool)
        requires
            self.wf(),
            col < 7,
        ensures
            r == slot_open(self.grid(), col as int),
    {
        self.cells[col].is_none()
    }
}

} // verus!
