//! Negamax game-tree search with alpha-beta pruning over a board snapshot.
//!
//! The search explores candidate columns in the board's fixed center-biased
//! order, simulating each move on an independent copy of the board. The
//! `best` column is only replaced when a value strictly exceeds the running
//! `alpha` bound — so the first explored candidate is the default answer and
//! later ones must beat the bound, not merely the running best. That
//! tie-break, and the cut once `alpha >= beta`, are part of the function's
//! contract: [`spec_negamax`] states the returned pair exactly.

use vstd::prelude::*;

use crate::board::Board;
use crate::board::GameOutcome;
use crate::board::MAX_GAME_SCORE;
use crate::board::Piece;
use crate::board::next_outcome;
use crate::board::placed_grid;
use crate::board::slot_open;
use crate::board::spec_valid_moves;
use crate::board::total_of;

verus! {

/// The pair `(value, best column)` that the pruned negamax search reports
/// for a board with grid `g`, recorded outcome `oc` and `turn` to move,
/// searched to `depth`, inside the window `[alpha, beta]`, with `color` the
/// sign of the player to move. At depth 0 or on a finished board the value
/// is the static evaluation from the mover's perspective and the column a
/// placeholder.
pub open spec fn spec_negamax(
    g: Seq<Option<Piece>>,
    oc: Option<GameOutcome>,
    turn: Piece,
    depth: nat,
    alpha: int,
    beta: int,
    color: int,
) -> (int, int)
    decreases depth + 1, 0int,
{
    if depth == 0 || oc is Some {
        (color * total_of(g, oc), 1)
    } else {
        negamax_moves(
            g,
            turn,
            depth,
            beta,
            color,
            spec_valid_moves(g),
            0,
            -(MAX_GAME_SCORE as int) + 1,
            1,
            alpha,
        )
    }
}

/// The candidate loop of the search, from the `k`-th valid move on, carrying
/// the running `value`, `best` column and `alpha` bound: each simulated move
/// is scored by the negated search of the resulting position, the running
/// value is the maximum seen, `alpha` and `best` advance together on strict
/// improvement, and the loop stops early once `alpha` reaches `beta`.
pub open spec fn negamax_moves(
    g: Seq<Option<Piece>>,
    turn: Piece,
    depth: nat,
    beta: int,
    color: int,
    moves: Seq<int>,
    k: int,
    value: int,
    best: int,
    alpha: int,
) -> (int, int)
    decreases depth, moves.len() - k,
{
    if depth == 0 || !(0 <= k < moves.len()) {
        (value, best)
    } else {
        let c = moves[k];
        let g1 = placed_grid(g, c - 1, turn);
        let oc1 = next_outcome(g1);
        let t1 = if oc1 is None {
            turn.flip_spec()
        } else {
            turn
        };
        let sub = spec_negamax(g1, oc1, t1, (depth - 1) as nat, -beta, -alpha, -color);
        let temp = -sub.0;
        let value1 = if temp > value {
            temp
        } else {
            value
        };
        let alpha1 = if value1 > alpha {
            value1
        } else {
            alpha
        };
        let best1 = if value1 > alpha {
            c
        } else {
            best
        };
        if alpha1 >= beta {
            (value1, best1)
        } else {
            negamax_moves(g, turn, depth, beta, color, moves, k + 1, value1, best1, alpha1)
        }
    }
}

/// Negamax with alpha-beta pruning: explores the game tree below `node` to
/// `depth`, simulating moves on cloned boards, and returns the value of the
/// position from the perspective of the player to move together with the
/// preferred column, exactly as [`spec_negamax`] states.
pub fn negamax(node: &Board, depth: usize, alpha: isize, beta: isize, color: isize) -> (r: (
    isize,
    usize,
))
    requires
        node.wf(),
        -(MAX_GAME_SCORE as int) <= alpha as int <= MAX_GAME_SCORE as int,
        -(MAX_GAME_SCORE as int) <= beta as int <= MAX_GAME_SCORE as int,
        color == 1 || color == -1,
    ensures
        r.0 as int == spec_negamax(
            node.grid(),
            node.outcome,
            node.current_turn,
            depth as nat,
            alpha as int,
            beta as int,
            color as int,
        ).0,
        r.1 as int == spec_negamax(
            node.grid(),
            node.outcome,
            node.current_turn,
            depth as nat,
            alpha as int,
            beta as int,
            color as int,
        ).1,
        -(MAX_GAME_SCORE as int) <= r.0 as int <= MAX_GAME_SCORE as int,
        1 <= r.1 <= 7,
    decreases depth,
{
    if depth == 0 || node.outcome.is_some() {
        let score = node.get_total_score();
        return (score * color, 1);
    }
    let ghost g = node.grid();
    let ghost sm = spec_valid_moves(g);
    let moves = node.get_valid_moves();
    let mut value: isize = -MAX_GAME_SCORE + 1;
    let mut best_move: usize = 1;
    let mut a = alpha;
    let mut pruned = false;
    let mut k: usize = 0;
    while k < moves.len() && !pruned
        invariant
            node.wf(),
            g == node.grid(),
            sm == spec_valid_moves(g),
            node.outcome is None,
            depth >= 1,
            color == 1 || color == -1,
            -(MAX_GAME_SCORE as int) <= alpha as int <= MAX_GAME_SCORE as int,
            -(MAX_GAME_SCORE as int) <= beta as int <= MAX_GAME_SCORE as int,
            -(MAX_GAME_SCORE as int) <= a as int <= MAX_GAME_SCORE as int,
            -(MAX_GAME_SCORE as int) < value as int <= MAX_GAME_SCORE as int,
            1 <= best_move <= 7,
            k <= moves@.len(),
            moves@.len() == sm.len(),
            forall|j: int| 0 <= j < moves@.len() ==> moves@[j] as int == sm[j],
            forall|j: int|
                0 <= j < moves@.len() ==> 1 <= #[trigger] moves@[j] <= 7 && slot_open(
                    g,
                    moves@[j] as int - 1,
                ),
            !pruned ==> spec_negamax(
                g,
                node.outcome,
                node.current_turn,
                depth as nat,
                alpha as int,
                beta as int,
                color as int,
            ) == negamax_moves(
                g,
                node.current_turn,
                depth as nat,
                beta as int,
                color as int,
                sm,
                k as int,
                value as int,
                best_move as int,
                a as int,
            ),
            pruned ==> spec_negamax(
                g,
                node.outcome,
                node.current_turn,
                depth as nat,
                alpha as int,
                beta as int,
                color as int,
            ) == (value as int, best_move as int),
        decreases moves@.len() - k,
    {
        let action = moves[k];
        let mut child = node.clone();
        let res = child.insert_at(action);
        assert(res is Ok);
        let sub = negamax(&child, depth - 1, -beta, -a, -color);
        let temp = -sub.0;
        if temp > value {
            value = temp;
        }
        if value > a {
            a = value;
            best_move = action;
        }
        if a >= beta {
            pruned = true;
        }
        k += 1;
    }
    (value, best_move)
}

} // verus!
