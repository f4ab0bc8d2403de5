use vstd::prelude::*;

use crate::game::{
    first_winner, line_winner, Game, GameState, GameView, TileState, TryPlaceResult, BOARD_SIZE,
};
use crate::player::Player;
use crate::position::Position;

verus! {

/// The game after the rounds `moves`, played in order.
pub open spec fn replay(g: GameView, moves: Seq<Position>) -> GameView
    decreases moves.len(),
{
    if moves.len() == 0 {
        g
    } else {
        replay(g.after_round(moves[0].x as int, moves[0].y as int), moves.drop_first())
    }
}

/// How many of the rounds `moves`, played in order, placed a mark.
pub open spec fn successes(g: GameView, moves: Seq<Position>) -> nat
    decreases moves.len(),
{
    if moves.len() == 0 {
        0
    } else {
        (if g.round_result(moves[0].x as int, moves[0].y as int) == Some(
            TryPlaceResult::Success,
        ) {
            1nat
        } else {
            0nat
        }) + successes(g.after_round(moves[0].x as int, moves[0].y as int), moves.drop_first())
    }
}

/// `p` after the turn has passed `n` times.
pub open spec fn passed(p: Player, n: nat) -> Player {
    if n % 2 == 0 {
        p
    } else {
        p.other()
    }
}

proof fn lemma_turn_after_rounds(g: GameView, moves: Seq<Position>)
    ensures
        replay(g, moves).turn == passed(g.turn, successes(g, moves)),
    decreases moves.len(),
{
    if moves.len() > 0 {
        lemma_turn_after_rounds(
            g.after_round(moves[0].x as int, moves[0].y as int),
            moves.drop_first(),
        );
    }
}

/// Placing on an empty cell of the board succeeds and the cell then holds
/// the placing player's mark; a second placement on that cell, by either
/// player, reports it occupied and leaves the game as the first left it.
pub proof fn lemma_place_twice(g: Game, x: usize, y: usize, p: Player, q: Player)
    requires
        x < BOARD_SIZE,
        y < BOARD_SIZE,
        g@.cell(x as int, y as int).0 is None,
    ensures
        g@.place_outcome(x as int, y as int) == TryPlaceResult::Success,
        g@.try_placed(x as int, y as int, p).cell(x as int, y as int).0 == Some(p),
        g@.try_placed(x as int, y as int, p).place_outcome(x as int, y as int)
            == TryPlaceResult::Occupied,
        g@.try_placed(x as int, y as int, p).try_placed(x as int, y as int, q) == g@.try_placed(
            x as int,
            y as int,
            p,
        ),
{
}

/// In a game that `X` opens on an empty board, after any sequence of rounds
/// the player to move is `X` when an even number of them placed a mark, and
/// `O` when an odd number did.
pub proof fn lemma_turns_alternate(g: Game, moves: Seq<Position>)
    requires
        g.turn == Player::X,
        forall|x: int, y: int| 0 <= x < BOARD_SIZE && 0 <= y < BOARD_SIZE ==> (#[trigger] g@.cell(x, y)).0 is None,
    ensures
        replay(g@, moves).turn == (if successes(g@, moves) % 2 == 0 {
            Player::X
        } else {
            Player::O
        }),
{
    lemma_turn_after_rounds(g@, moves);
}

proof fn lemma_no_line_won(lines: Seq<Seq<TileState>>, i: int)
    requires
        0 <= i,
        forall|k: int| 0 <= k < lines.len() ==> line_winner(#[trigger] lines[k]) is None,
    ensures
        first_winner(lines, i) is None,
    decreases lines.len() - i,
{
    if i < lines.len() {
        lemma_no_line_won(lines, i + 1);
    }
}

/// A full board on which no line is held by one player is a tie.
pub proof fn lemma_full_board_ties(g: Game)
    requires
        g@.full(),
        forall|k: int|
            0 <= k < g@.win_lines().len() ==> line_winner(#[trigger] g@.win_lines()[k]) is None,
    ensures
        g@.outcome() == GameState::Tie,
{
    lemma_no_line_won(g@.win_lines(), 0);
}

/// Evaluating a board a second time changes nothing: the state is the one
/// the first evaluation gave.
pub proof fn lemma_evaluation_idempotent(g: Game)
    ensures
        g@.evaluated().evaluated() == g@.evaluated(),
        g@.evaluated().evaluated().state == g@.evaluated().state,
{
    assert(g@.evaluated().grid == g@.grid);
    assert(g@.evaluated().win_lines() =~~= g@.win_lines());
}

} // verus!
