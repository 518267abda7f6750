use vstd::math::{max, min};
use vstd::prelude::*;

use crate::game::{
    get_game_state, has_empty, lemma_full_board_is_tie, line_owner, outcome, Cell, Game,
    GameState, Outcome, Player, CELL_COUNT,
};

verus! {

/// Number of empty cells on a board.
pub open spec fn empty_count(b: Seq<Cell>) -> nat
    decreases b.len(),
{
    if b.len() == 0 {
        0
    } else {
        empty_count(b.drop_last()) + if b.last() == Cell::Empty {
            1nat
        } else {
            0nat
        }
    }
}

/// Filling an empty cell leaves one empty cell fewer.
pub proof fn lemma_fill_decreases(b: Seq<Cell>, i: int, c: Cell)
    requires
        0 <= i < b.len(),
        b[i] == Cell::Empty,
        c != Cell::Empty,
    ensures
        empty_count(b.update(i, c)) + 1 == empty_count(b),
    decreases b.len(),
{
    let u = b.update(i, c);
    if i == b.len() - 1 {
        assert(u.drop_last() =~= b.drop_last());
    } else {
        assert(u.drop_last() =~= b.drop_last().update(i, c));
        lemma_fill_decreases(b.drop_last(), i, c);
    }
}

/// The mark placed by the side to move.
pub open spec fn mark(maximizing: bool) -> Cell {
    if maximizing {
        Cell::Player(Player::Player1)
    } else {
        Cell::Player(Player::Player2)
    }
}

/// Score of a finished game from `Player1`'s side.
pub open spec fn utility(o: Outcome) -> int {
    match o {
        Outcome::Won { player: Player::Player1, .. } => 10,
        Outcome::Won { .. } => -10,
        _ => 0,
    }
}

pub open spec fn is_terminal(b: Seq<Cell>) -> bool {
    !(outcome(b) is InProgress)
}

/// The value of the game after the side to move plays into empty cell `i`.
pub open spec fn child_value(b: Seq<Cell>, maximizing: bool, i: int) -> int {
    minimax(b.update(i, mark(maximizing)), !maximizing)
}

/// Exhaustive, unpruned minimax value of a board, `maximizing` telling
/// whether `Player1` is to move.
pub open spec fn minimax(b: Seq<Cell>, maximizing: bool) -> int
    decreases empty_count(b), 1int, 0int,
{
    if is_terminal(b) {
        utility(outcome(b))
    } else {
        best_child(b, maximizing, b.len() as int)
    }
}

/// The best child value for the side to move over the empty cells below
/// index `n`: their maximum when maximizing, their minimum otherwise, and
/// the far end of the `i32` range when there are none.
pub open spec fn best_child(b: Seq<Cell>, maximizing: bool, n: int) -> int
    decreases empty_count(b), 0int, n,
    via best_child_decreases
{
    if n <= 0 || n > b.len() {
        if maximizing {
            i32::MIN as int
        } else {
            i32::MAX as int
        }
    } else if b[n - 1] == Cell::Empty {
        let v = minimax(b.update(n - 1, mark(maximizing)), !maximizing);
        if maximizing {
            max(best_child(b, maximizing, n - 1), v)
        } else {
            min(best_child(b, maximizing, n - 1), v)
        }
    } else {
        best_child(b, maximizing, n - 1)
    }
}

#[via_fn]
proof fn best_child_decreases(b: Seq<Cell>, maximizing: bool, n: int) {
    if 0 < n <= b.len() && b[n - 1] == Cell::Empty {
        lemma_fill_decreases(b, n - 1, mark(maximizing));
    }
}

/// What a search with bounds `alpha <= beta` may return for a position whose
/// exact value is `v`: `v` itself inside the bounds, and a value beyond the
/// bound that `v` reaches outside them.
pub open spec fn within_window(r: int, v: int, alpha: int, beta: int) -> bool {
    &&& (alpha <= v <= beta ==> r == v)
    &&& (v <= alpha ==> r <= alpha)
    &&& (v >= beta ==> r >= beta)
}

/// Looking at more cells never worsens the best child value.
proof fn lemma_best_child_monotone(b: Seq<Cell>, maximizing: bool, i: int, j: int)
    requires
        0 <= i <= j <= b.len(),
    ensures
        maximizing ==> best_child(b, maximizing, i) <= best_child(b, maximizing, j),
        !maximizing ==> best_child(b, maximizing, i) >= best_child(b, maximizing, j),
    decreases j - i,
{
    if i < j {
        lemma_best_child_monotone(b, maximizing, i, j - 1);
    }
}

/// A non-terminal board has an empty cell.
proof fn lemma_open_board_has_empty(b: Seq<Cell>)
    requires
        !is_terminal(b),
    ensures
        has_empty(b),
{
}

/// Minimax values of nine-cell boards lie between -10 and 10.
pub proof fn lemma_minimax_bounds(b: Seq<Cell>, maximizing: bool)
    requires
        b.len() == CELL_COUNT,
    ensures
        -10 <= minimax(b, maximizing) <= 10,
    decreases empty_count(b), 1int, 0int,
{
    if !is_terminal(b) {
        lemma_open_board_has_empty(b);
        let k = choose|k: int| 0 <= k < b.len() && b[k] == Cell::Empty;
        lemma_best_child_bounds(b, maximizing, b.len() as int, k);
    }
}

/// The best child value is a real minimax value once an empty cell below
/// `n` exists, and the end of the `i32` range before.
proof fn lemma_best_child_bounds(b: Seq<Cell>, maximizing: bool, n: int, k: int)
    requires
        b.len() == CELL_COUNT,
        0 <= n <= b.len(),
    ensures
        -10 <= best_child(b, maximizing, n) <= 10 || best_child(b, maximizing, n) == (
        if maximizing {
            i32::MIN as int
        } else {
            i32::MAX as int
        }),
        0 <= k < n && b[k] == Cell::Empty ==> -10 <= best_child(b, maximizing, n) <= 10,
    decreases empty_count(b), 0int, n,
{
    if n > 0 {
        lemma_best_child_bounds(b, maximizing, n - 1, k);
        if b[n - 1] == Cell::Empty {
            lemma_fill_decreases(b, n - 1, mark(maximizing));
            lemma_minimax_bounds(b.update(n - 1, mark(maximizing)), !maximizing);
        }
    }
}

/// Without an empty cell below `n`, the best child value is the end of the
/// `i32` range.
proof fn lemma_best_child_none_empty(b: Seq<Cell>, maximizing: bool, n: int)
    requires
        0 <= n <= b.len(),
        forall|j: int| 0 <= j < n ==> b[j] != Cell::Empty,
    ensures
        best_child(b, maximizing, n) == if maximizing {
            i32::MIN as int
        } else {
            i32::MAX as int
        },
    decreases n,
{
    if n > 0 {
        lemma_best_child_none_empty(b, maximizing, n - 1);
    }
}

/// Score of a board on which the game is over.
fn terminal_score(state: &GameState) -> (r: Option<i32>)
    ensures
        match r {
            Some(s) => !(state@ is InProgress) && s as int == utility(state@),
            None => state@ is InProgress,
        },
{
    match state {
        GameState::GameWon { player, .. } => Some(
            if *player == Player::Player1 {
                10
            } else {
                -10
            },
        ),
        GameState::Tie => Some(0),
        GameState::InProgress => None,
    }
}

/// Alpha-beta search with `Player1` to move. The board is restored before
/// returning, and pruning keeps the unpruned minimax value wherever it lies
/// within the bounds.
pub fn max_search(elements: &mut [Cell], alpha: i32, beta: i32) -> (r: i32)
    requires
        old(elements)@.len() == CELL_COUNT,
        alpha <= beta,
    ensures
        final(elements)@ == old(elements)@,
        within_window(r as int, minimax(old(elements)@, true), alpha as int, beta as int),
    decreases empty_count(old(elements)@), 1int,
{
    let state = get_game_state(elements);
    if let Some(score) = terminal_score(&state) {
        return score;
    }
    let ghost b = elements@;
    let mut best: i32 = alpha;
    let mut i: usize = 0;
    while i < elements.len()
        invariant_except_break
            best <= beta,
            max(alpha as int, best_child(b, true, i as int)) <= beta ==> best == max(
                alpha as int,
                best_child(b, true, i as int),
            ),
            max(alpha as int, best_child(b, true, i as int)) >= beta ==> best >= beta,
        invariant
            b == old(elements)@,
            elements@ == b,
            b.len() == CELL_COUNT,
            !is_terminal(b),
            alpha <= beta,
            i <= CELL_COUNT,
        ensures
            within_window(best as int, minimax(b, true), alpha as int, beta as int),
        decreases CELL_COUNT - i,
    {
        if elements[i] == Cell::Empty {
            elements[i] = Cell::Player(Player::Player1);
            proof {
                lemma_fill_decreases(b, i as int, mark(true));
            }
            let score = min_search(elements, best, beta);
            elements[i] = Cell::Empty;
            proof {
                assert(elements@ =~= b);
            }
            if score > best {
                best = score;
            }
            if best > beta {
                proof {
                    lemma_best_child_monotone(b, true, i + 1, b.len() as int);
                }
                break;
            }
        }
        i += 1;
    }
    best
}

/// Alpha-beta search with `Player2` to move; the mirror of `max_search`.
pub fn min_search(elements: &mut [Cell], alpha: i32, beta: i32) -> (r: i32)
    requires
        old(elements)@.len() == CELL_COUNT,
        alpha <= beta,
    ensures
        final(elements)@ == old(elements)@,
        within_window(r as int, minimax(old(elements)@, false), alpha as int, beta as int),
    decreases empty_count(old(elements)@), 1int,
{
    let state = get_game_state(elements);
    if let Some(score) = terminal_score(&state) {
        return score;
    }
    let ghost b = elements@;
    let mut best: i32 = beta;
    let mut i: usize = 0;
    while i < elements.len()
        invariant_except_break
            best >= alpha,
            min(beta as int, best_child(b, false, i as int)) >= alpha ==> best == min(
                beta as int,
                best_child(b, false, i as int),
            ),
            min(beta as int, best_child(b, false, i as int)) <= alpha ==> best <= alpha,
        invariant
            b == old(elements)@,
            elements@ == b,
            b.len() == CELL_COUNT,
            !is_terminal(b),
            alpha <= beta,
            i <= CELL_COUNT,
        ensures
            within_window(best as int, minimax(b, false), alpha as int, beta as int),
        decreases CELL_COUNT - i,
    {
        if elements[i] == Cell::Empty {
            elements[i] = Cell::Player(Player::Player2);
            proof {
                lemma_fill_decreases(b, i as int, mark(false));
            }
            let score = max_search(elements, alpha, best);
            elements[i] = Cell::Empty;
            proof {
                assert(elements@ =~= b);
            }
            if score < best {
                best = score;
            }
            if alpha > best {
                proof {
                    lemma_best_child_monotone(b, false, i + 1, b.len() as int);
                }
                break;
            }
        }
        i += 1;
    }
    best
}

/// Score of playing `Player1`'s mark into cell `i`: the minimax value of the
/// resulting board with `Player2` to move.
pub open spec fn move_score(b: Seq<Cell>, i: int) -> int {
    child_value(b, true, i)
}

/// Cell `k` is the move to pick: an empty cell with the highest score, and
/// the first such cell in index order.
pub open spec fn is_best_move(b: Seq<Cell>, k: int) -> bool {
    &&& 0 <= k < b.len()
    &&& b[k] == Cell::Empty
    &&& forall|j: int|
        0 <= j < b.len() && b[j] == Cell::Empty ==> #[trigger] move_score(b, j) <= move_score(b, k)
    &&& forall|j: int| 0 <= j < k && b[j] == Cell::Empty ==> #[trigger] move_score(b, j) < move_score(b, k)
}

/// `r` is the move selector's answer on board `b`: the best move, or `None`
/// exactly when no cell is empty.
pub open spec fn selects_move(b: Seq<Cell>, r: Option<usize>) -> bool {
    match r {
        Some(k) => is_best_move(b, k as int),
        None => !has_empty(b),
    }
}

/// Picks the best move for `Player1`: `None` when no cell is empty. The
/// board is restored before returning.
pub fn get_best_move(elements: &mut [Cell]) -> (r: Option<usize>)
    requires
        old(elements)@.len() == CELL_COUNT,
    ensures
        final(elements)@ == old(elements)@,
        selects_move(old(elements)@, r),
{
    let ghost b = elements@;
    let mut best_score: i32 = i32::MIN;
    let mut best_move: usize = 0;
    let mut best_move_found = false;
    let mut i: usize = 0;
    while i < elements.len()
        invariant
            elements@ == b,
            b.len() == CELL_COUNT,
            i <= CELL_COUNT,
            best_move_found <==> exists|j: int| 0 <= j < i && b[j] == Cell::Empty,
            best_move <= i,
            !best_move_found ==> best_score == i32::MIN,
            best_move_found ==> best_move < i && b[best_move as int] == Cell::Empty
                && best_score == move_score(b, best_move as int),
            forall|j: int|
                0 <= j < i && b[j] == Cell::Empty ==> #[trigger] move_score(b, j) <= best_score,
            forall|j: int|
                0 <= j < best_move && b[j] == Cell::Empty ==> #[trigger] move_score(b, j)
                    < best_score,
        decreases CELL_COUNT - i,
    {
        if elements[i] == Cell::Empty {
            elements[i] = Cell::Player(Player::Player1);
            proof {
                lemma_minimax_bounds(elements@, false);
            }
            let tmp_score = min_search(elements, i32::MIN, i32::MAX);
            elements[i] = Cell::Empty;
            proof {
                assert(elements@ =~= b);
            }
            if tmp_score > best_score {
                best_score = tmp_score;
                best_move = i;
                best_move_found = true;
            }
        }
        i += 1;
    }
    if best_move_found {
        Some(best_move)
    } else {
        None
    }
}

/// Plays `Player1`'s best move on the live game while it is in progress;
/// once it is over the game stays as it is.
pub fn make_best_move(game: &mut Game)
    requires
        old(game).wf(),
    ensures
        final(game).wf(),
        final(game).selection() == old(game).selection(),
        outcome(old(game).board()) is InProgress ==> exists|k: usize|
            selects_move(old(game).board(), Some(k)) && final(game).board() == old(
                game,
            ).board().update(k as int, mark(true)),
        !(outcome(old(game).board()) is InProgress) ==> final(game).board() == old(game).board(),
{
    let mut cells = game.get_cells();
    let best_move = get_best_move(cells.as_mut_slice());
    if let Some(id) = best_move {
        game.make_move(id, Player::Player1);
    } else {
        proof {
            if outcome(old(game).board()) is InProgress {
                lemma_open_board_has_empty(old(game).board());
            }
        }
    }
}

/// Every empty cell below `n` scores at most the best child value, and
/// some empty cell below `n`, when there is one, reaches it.
proof fn lemma_best_child_attained(b: Seq<Cell>, n: int)
    requires
        b.len() == CELL_COUNT,
        0 <= n <= b.len(),
    ensures
        forall|j: int|
            0 <= j < n && b[j] == Cell::Empty ==> #[trigger] move_score(b, j) <= best_child(b, true, n),
        (exists|j: int| 0 <= j < n && b[j] == Cell::Empty) ==> exists|j: int|
            0 <= j < n && b[j] == Cell::Empty && #[trigger] move_score(b, j) == best_child(b, true, n),
    decreases n,
{
    if n > 0 {
        lemma_best_child_attained(b, n - 1);
        lemma_best_child_monotone(b, true, n - 1, n);
        if b[n - 1] == Cell::Empty {
            if exists|j: int| 0 <= j < n - 1 && b[j] == Cell::Empty && #[trigger] move_score(b, j)
                == best_child(b, true, n) {
                let j = choose|j: int|
                    0 <= j < n - 1 && b[j] == Cell::Empty && #[trigger] move_score(b, j)
                        == best_child(b, true, n);
                assert(0 <= j < n && b[j] == Cell::Empty && move_score(b, j) == best_child(
                    b,
                    true,
                    n,
                ));
            } else {
                lemma_minimax_bounds(b.update(n - 1, mark(true)), false);
                if exists|j: int| 0 <= j < n - 1 && b[j] == Cell::Empty {
                    let j = choose|j: int|
                        0 <= j < n - 1 && b[j] == Cell::Empty && #[trigger] move_score(b, j)
                            == best_child(b, true, n - 1);
                    assert(move_score(b, j) != best_child(b, true, n));
                } else {
                    lemma_best_child_none_empty(b, true, n - 1);
                }
                assert(move_score(b, n - 1) == best_child(b, true, n));
            }
        } else if exists|j: int| 0 <= j < n && b[j] == Cell::Empty {
            let j = choose|j: int| 0 <= j < n && b[j] == Cell::Empty;
            assert(0 <= j < n - 1 && b[j] == Cell::Empty);
        }
    }
}

/// Pruning changes nothing at the root: on a board where the game goes on,
/// the selected move scores exactly the unpruned minimax value of the board
/// with `Player1` to move.
pub proof fn lemma_best_move_is_optimal(b: Seq<Cell>, k: usize)
    requires
        b.len() == CELL_COUNT,
        !is_terminal(b),
        selects_move(b, Some(k)),
    ensures
        move_score(b, k as int) == minimax(b, true),
{
    lemma_best_child_attained(b, b.len() as int);
    assert(0 <= k < b.len() && b[k as int] == Cell::Empty);
}

/// The move selector's answer is a function of the board: any two answers
/// that its contract allows on one board are equal, so asking twice gives
/// the same move.
pub proof fn lemma_best_move_unique(b: Seq<Cell>, r1: Option<usize>, r2: Option<usize>)
    requires
        selects_move(b, r1),
        selects_move(b, r2),
    ensures
        r1 == r2,
{
    match (r1, r2) {
        (Some(k1), Some(k2)) => {
            assert(move_score(b, k1 as int) <= move_score(b, k2 as int));
            assert(move_score(b, k2 as int) <= move_score(b, k1 as int));
        },
        (Some(k1), None) => {
            assert(b[k1 as int] == Cell::Empty);
        },
        (None, Some(k2)) => {
            assert(b[k2 as int] == Cell::Empty);
        },
        (None, None) => {},
    }
}

/// On a full board with no held line the game is a tie and no move is
/// selected.
pub proof fn lemma_full_board_has_no_move(b: Seq<Cell>)
    requires
        b.len() == CELL_COUNT,
        !has_empty(b),
        forall|k: int| 0 <= k < 8 ==> line_owner(b, k) is None,
    ensures
        outcome(b) is Tie,
        selects_move(b, None),
        forall|k: usize| !selects_move(b, Some(k)),
{
    lemma_full_board_is_tie(b);
    assert forall|k: usize| !selects_move(b, Some(k)) by {
        if selects_move(b, Some(k)) {
            assert(b[k as int] == Cell::Empty);
        }
    }
}

} // verus!
