use vstd::prelude::*;

use rand::seq::SliceRandom;

use crate::board::lemma_num_played_bounds;
use crate::board::lemma_num_played_lt;
use crate::board::lemma_num_played_update;
use crate::board::num_played;
use crate::game::Game;
use crate::game::active_of;
use crate::game::is_legal_play;
use crate::game::lemma_open_cells_from_contains;
use crate::game::lemma_open_cells_from_elems;
use crate::game::lemma_open_cells_len;
use crate::game::lemma_turn_alternates;
use crate::game::open_cells;
use crate::marker::Marker;
use crate::marker::other;
use crate::winning_plays::lemma_wins_update;
use crate::winning_plays::wins;

verus! {

/// The board after the side to move on `b` plays cell `c`.
pub open spec fn board_after(b: Seq<Option<Marker>>, c: int) -> Seq<Option<Marker>> {
    b.update(c, Some(active_of(b)))
}

/// The game on board `b` has ended: the board is full or a side owns a
/// line.
pub open spec fn terminal(b: Seq<Option<Marker>>) -> bool {
    ||| num_played(b) == 9
    ||| wins(b, Marker::First)
    ||| wins(b, Marker::Second)
}

/// The score of a finished game from `m`'s standpoint: 10 for a win,
/// -10 for a loss, 0 for a draw.
pub open spec fn terminal_score(b: Seq<Option<Marker>>, m: Marker) -> int {
    if wins(b, m) {
        10
    } else if wins(b, other(m)) {
        -10
    } else {
        0
    }
}

/// The preferred of two child scores: the larger on the layers where
/// the perspective marker moves, the smaller on the opponent's layers.
pub open spec fn better(maxing: bool, s: int, r: int) -> int {
    if maxing {
        if s >= r {
            s
        } else {
            r
        }
    } else {
        if s <= r {
            s
        } else {
            r
        }
    }
}

/// Folds the minimax values of the moves in `cells` on board `b`, each
/// child searched at `depth + 1`; `None` when `cells` offers no legal
/// move.
pub open spec fn best_of(
    b: Seq<Option<Marker>>,
    m: Marker,
    depth: int,
    cells: Seq<u8>,
    maxing: bool,
) -> Option<int>
    decreases 9 - num_played(b), cells.len() as int,
    via best_of_decreases
{
    if cells.len() == 0 {
        None
    } else {
        let rest = best_of(b, m, depth, cells.drop_last(), maxing);
        let c = cells.last();
        if b.len() == 9 && c < 9 && b[c as int] is None {
            let s = spec_minimax(board_after(b, c as int), m, depth + 1);
            match rest {
                None => Some(s),
                Some(r) => Some(better(maxing, s, r)),
            }
        } else {
            rest
        }
    }
}

#[via_fn]
proof fn best_of_decreases(
    b: Seq<Option<Marker>>,
    m: Marker,
    depth: int,
    cells: Seq<u8>,
    maxing: bool,
) {
    lemma_num_played_bounds(b);
    if cells.len() > 0 {
        let c = cells.last();
        if b.len() == 9 && c < 9 && b[c as int] is None {
            lemma_num_played_lt(b, c as int);
            lemma_num_played_update(b, c as int, active_of(b));
        }
    }
}

/// The minimax value of board `b` for the perspective marker `m`,
/// entered at search depth `depth`. A finished game scores 10, -10 or
/// 0 for a win, loss or draw of `m`. On a layer where `m` itself moves
/// the value is the maximum over all moves less the current depth, so
/// that among forced wins the fastest scores highest; on the
/// opponent's layers it is the plain minimum.
pub open spec fn spec_minimax(b: Seq<Option<Marker>>, m: Marker, depth: int) -> int
    decreases 9 - num_played(b), 10int,
    via spec_minimax_decreases
{
    if b.len() != 9 {
        0
    } else if terminal(b) {
        terminal_score(b, m)
    } else {
        let maxing = active_of(b) == m;
        match best_of(b, m, depth, open_cells(b), maxing) {
            Some(v) => if maxing {
                v - depth
            } else {
                v
            },
            None => 0,
        }
    }
}

#[via_fn]
proof fn spec_minimax_decreases(b: Seq<Option<Marker>>, m: Marker, depth: int) {
    if b.len() == 9 {
        lemma_num_played_bounds(b);
        lemma_open_cells_len(b);
    }
}

/// Scores from the fold stay between the extreme child values, so they
/// are at most 10 and bounded below by a small fixed quantity.
pub proof fn lemma_best_of_bounds(
    b: Seq<Option<Marker>>,
    m: Marker,
    depth: int,
    cells: Seq<u8>,
    maxing: bool,
)
    requires
        b.len() == 9,
        0 <= depth,
        depth + (9 - num_played(b)) <= 1010,
    ensures
        best_of(b, m, depth, cells, maxing) matches Some(v) ==> -10 - 1020 * (8 - num_played(b))
            <= v <= 10,
    decreases 9 - num_played(b), cells.len() as int,
{
    lemma_num_played_bounds(b);
    if cells.len() > 0 {
        lemma_best_of_bounds(b, m, depth, cells.drop_last(), maxing);
        let c = cells.last();
        if c < 9 && b[c as int] is None {
            lemma_num_played_lt(b, c as int);
            lemma_num_played_update(b, c as int, active_of(b));
            lemma_spec_minimax_bounds(board_after(b, c as int), m, depth + 1);
        }
    }
}

/// The minimax value is at most 10 and bounded below, so every running
/// score of the search fits comfortably in an `i32`.
pub proof fn lemma_spec_minimax_bounds(b: Seq<Option<Marker>>, m: Marker, depth: int)
    requires
        b.len() == 9,
        0 <= depth,
        depth + (9 - num_played(b)) <= 1010,
    ensures
        -10 - 1020 * (9 - num_played(b)) <= spec_minimax(b, m, depth) <= 10,
    decreases 9 - num_played(b), 10int,
{
    lemma_num_played_bounds(b);
    if !terminal(b) {
        let maxing = active_of(b) == m;
        let cells = open_cells(b);
        lemma_open_cells_len(b);
        lemma_open_cells_from_elems(b, 0);
        lemma_best_of_bounds(b, m, depth, cells, maxing);
        assert(cells.len() > 0);
        assert(best_of(b, m, depth, cells, maxing) is Some);
    }
}

/// Scores a finished game from `marker`'s standpoint; `None` while the
/// game is still running.
pub fn get_game_score(marker: Marker, game: &Game) -> (r: Option<i32>)
    requires
        game.wf(),
    ensures
        r is Some <==> terminal(game.board@),
        r matches Some(s) ==> s == terminal_score(game.board@, marker),
{
    let score = match game.get_winner() {
        Some(winner) => {
            if winner == marker {
                Some(10)
            } else {
                Some(-10)
            }
        },
        None => {
            if game.is_over {
                Some(0)
            } else {
                None
            }
        },
    };
    score
}

/// The exhaustive search runs only when it can discriminate: with all
/// nine cells free every answer is as good as any other, and with one
/// cell free there is nothing to compare.
pub fn should_min_max(available_move_count: usize) -> (r: bool)
    ensures
        r == (1 < available_move_count < 9),
{
    available_move_count < 9 && available_move_count > 1
}

/// Every game reachable from `game` in one legal move, one per free
/// cell, in ascending order of the cell played.
pub fn get_possible_games(game: &Game) -> (games: Vec<Game>)
    requires
        game.wf(),
        !game.is_over,
    ensures
        games@.len() == open_cells(game.board@).len(),
        forall|k: int|
            0 <= k < games@.len() ==> (#[trigger] games@[k]).wf() && games@[k].board@
                == board_after(game.board@, open_cells(game.board@)[k] as int) && num_played(
                games@[k].board@,
            ) == num_played(game.board@) + 1,
{
    let moves = game.get_available_plays();
    let mut games: Vec<Game> = Vec::new();
    let mut idx: usize = 0;
    while idx < moves.len()
        invariant
            game.wf(),
            !game.is_over,
            moves@ == open_cells(game.board@),
            idx <= moves@.len(),
            games@.len() == idx,
            forall|k: int|
                0 <= k < idx ==> (#[trigger] games@[k]).wf() && games@[k].board@ == board_after(
                    game.board@,
                    moves@[k] as int,
                ) && num_played(games@[k].board@) == num_played(game.board@) + 1,
        decreases moves@.len() - idx,
    {
        proof {
            lemma_open_cells_from_elems(game.board@, 0);
        }
        let mut game_copy = game.copy();
        game_copy.play(moves[idx]);
        proof {
            lemma_num_played_update(
                game.board@,
                moves@[idx as int] as int,
                active_of(game.board@),
            );
        }
        games.push(game_copy);
        idx = idx + 1;
    }
    games
}

/// Scores with `mini_max` every game in `games`, which all lie the
/// same number of plays into the match.
fn score_games(marker: Marker, games: Vec<Game>, depth: i32, Ghost(np): Ghost<int>) -> (scores:
    Vec<i32>)
    requires
        forall|k: int|
            0 <= k < games@.len() ==> (#[trigger] games@[k]).wf() && num_played(games@[k].board@)
                == np,
        0 <= np <= 9,
        0 <= depth,
        depth + (9 - np) <= 1000,
    ensures
        scores@.len() == games@.len(),
        forall|k: int|
            0 <= k < games@.len() ==> #[trigger] scores@[k] as int == spec_minimax(
                games@[k].board@,
                marker,
                depth as int,
            ),
    decreases 10 - np, 0int,
{
    let mut scores: Vec<i32> = Vec::new();
    let mut idx: usize = 0;
    while idx < games.len()
        invariant
            forall|k: int|
                0 <= k < games@.len() ==> (#[trigger] games@[k]).wf() && num_played(
                    games@[k].board@,
                ) == np,
            0 <= np <= 9,
            0 <= depth,
            depth + (9 - np) <= 1000,
            idx <= games@.len(),
            scores@.len() == idx,
            forall|k: int|
                0 <= k < idx ==> #[trigger] scores@[k] as int == spec_minimax(
                    games@[k].board@,
                    marker,
                    depth as int,
                ),
        decreases games@.len() - idx,
    {
        scores.push(mini_max(&games[idx], marker, depth));
        idx = idx + 1;
    }
    scores
}

/// The exhaustive game-tree search: returns exactly the minimax value
/// `spec_minimax` assigns to the game for `marker` at `depth`.
pub fn mini_max(game: &Game, marker: Marker, depth: i32) -> (r: i32)
    requires
        game.wf(),
        0 <= depth,
        depth + (9 - num_played(game.board@)) <= 1000,
    ensures
        r as int == spec_minimax(game.board@, marker, depth as int),
    decreases 9 - num_played(game.board@), 1int,
{
    proof {
        lemma_num_played_bounds(game.board@);
    }
    let score = get_game_score(marker, game);
    match score {
        Some(s) => s,
        None => {
            let ghost b = game.board@;
            let ghost cells = open_cells(b);
            proof {
                match game.winner {
                    Some(w) => {
                        assert(w == Marker::First || w == Marker::Second);
                    },
                    None => {},
                }
                assert(!game.is_over);
            }
            let is_maximizing = game.get_active_marker() == marker;
            let games = get_possible_games(game);
            let scores = score_games(
                marker,
                games,
                depth + 1,
                Ghost(num_played(game.board@) + 1),
            );
            proof {
                lemma_open_cells_len(b);
                lemma_open_cells_from_elems(b, 0);
            }
            let mut k: usize = 0;
            let mut acc: Option<i32> = None;
            while k < scores.len()
                invariant
                    game.wf(),
                    b == game.board@,
                    cells == open_cells(b),
                    0 <= depth,
                    depth + (9 - num_played(b)) <= 1000,
                    scores@.len() == cells.len(),
                    forall|j: int|
                        0 <= j < scores@.len() ==> #[trigger] scores@[j] as int == spec_minimax(
                            board_after(b, cells[j] as int),
                            marker,
                            depth as int + 1,
                        ),
                    forall|j: int|
                        0 <= j < cells.len() ==> 0 <= #[trigger] cells[j] < 9 && b[cells[j] as int]
                            is None,
                    is_maximizing == (active_of(b) == marker),
                    k <= scores@.len(),
                    match acc {
                        None => k == 0,
                        Some(a) => k > 0 && best_of(
                            b,
                            marker,
                            depth as int,
                            cells.take(k as int),
                            is_maximizing,
                        ) == Some(a as int) && -10000 <= a <= 10,
                    },
                decreases scores@.len() - k,
            {
                let s = scores[k];
                proof {
                    lemma_num_played_bounds(b);
                    lemma_num_played_update(b, cells[k as int] as int, active_of(b));
                    lemma_spec_minimax_bounds(
                        board_after(b, cells[k as int] as int),
                        marker,
                        depth as int + 1,
                    );
                    assert(cells.take(k as int + 1).drop_last() =~= cells.take(k as int));
                    assert(cells.take(k as int + 1).last() == cells[k as int]);
                }
                acc = match acc {
                    None => Some(s),
                    Some(a) => {
                        if is_maximizing {
                            if s >= a {
                                Some(s)
                            } else {
                                Some(a)
                            }
                        } else {
                            if s <= a {
                                Some(s)
                            } else {
                                Some(a)
                            }
                        }
                    },
                };
                k = k + 1;
            }
            proof {
                assert(cells.take(cells.len() as int) =~= cells);
            }
            let v = acc.unwrap();
            if is_maximizing {
                v - depth
            } else {
                v
            }
        },
    }
}

/// Law: from a running game, playing a free cell is worth the maximal
/// score 10 exactly when it completes a line for the side to move.
/// Since every move scores at most 10 (`lemma_spec_minimax_bounds`)
/// and `get_best_move` returns a move of maximal score, the search
/// must return the winning cell whenever exactly one move wins on the
/// spot.
pub proof fn lemma_winning_move_scores_ten(b: Seq<Option<Marker>>, c: int)
    requires
        b.len() == 9,
        !terminal(b),
        0 <= c < 9,
        b[c] is None,
    ensures
        spec_minimax(board_after(b, c), active_of(b), 0) == 10 <==> wins(
            board_after(b, c),
            active_of(b),
        ),
{
    let a = active_of(b);
    let b1 = board_after(b, c);
    lemma_num_played_bounds(b);
    lemma_num_played_lt(b, c);
    lemma_num_played_update(b, c, a);
    lemma_turn_alternates(b, c, a);
    lemma_wins_update(b, Marker::First, c, a);
    lemma_wins_update(b, Marker::Second, c, a);
    if wins(b1, a) {
        assert(spec_minimax(b1, a, 0) == 10);
    } else {
        assert(!wins(b1, other(a)));
        if !terminal(b1) {
            let cells1 = open_cells(b1);
            lemma_open_cells_len(b1);
            lemma_open_cells_from_elems(b1, 0);
            assert(cells1.len() > 0);
            let c2 = cells1.last();
            assert(cells1[cells1.len() - 1] == c2);
            assert(0 <= c2 < 9 && b1[c2 as int] is None);
            let b2 = board_after(b1, c2 as int);
            lemma_num_played_lt(b1, c2 as int);
            lemma_num_played_update(b1, c2 as int, active_of(b1));
            lemma_turn_alternates(b1, c2 as int, active_of(b1));
            lemma_wins_update(b1, a, c2 as int, active_of(b1));
            assert(!wins(b2, a));
            let s_last = spec_minimax(b2, a, 1);
            if terminal(b2) {
                assert(s_last <= 0);
            } else {
                lemma_num_played_bounds(b2);
                lemma_open_cells_len(b2);
                lemma_open_cells_from_elems(b2, 0);
                assert(open_cells(b2).len() > 0);
                assert(open_cells(b2)[open_cells(b2).len() - 1] == open_cells(b2).last());
                lemma_best_of_bounds(b2, a, 1, open_cells(b2), true);
                assert(active_of(b2) == a);
                assert(best_of(b2, a, 1, open_cells(b2), true) is Some);
                assert(s_last <= 9);
            }
            assert(best_of(b1, a, 0, cells1, false) matches Some(v) && v <= s_last);
            assert(spec_minimax(b1, a, 0) <= 9);
        }
    }
}

/// Law: when exactly one free cell completes a line for the side to
/// move, any free cell of maximal search value is that cell — so
/// `get_best_move`, whose result is such a cell, returns the winning
/// cell deterministically.
pub proof fn lemma_forced_win_is_chosen(b: Seq<Option<Marker>>, c: int, c2: int)
    requires
        b.len() == 9,
        !terminal(b),
        0 <= c < 9,
        b[c] is None,
        wins(board_after(b, c), active_of(b)),
        forall|d: int|
            0 <= d < 9 && b[d] is None && d != c ==> !wins(
                #[trigger] board_after(b, d),
                active_of(b),
            ),
        0 <= c2 < 9,
        b[c2] is None,
        forall|d: int|
            0 <= d < 9 && b[d] is None ==> spec_minimax(
                #[trigger] board_after(b, d),
                active_of(b),
                0,
            ) <= spec_minimax(board_after(b, c2), active_of(b), 0),
    ensures
        c2 == c,
{
    let a = active_of(b);
    lemma_num_played_bounds(b);
    lemma_winning_move_scores_ten(b, c);
    lemma_num_played_lt(b, c2);
    lemma_num_played_update(b, c2, a);
    lemma_spec_minimax_bounds(board_after(b, c2), a, 0);
    assert(spec_minimax(board_after(b, c2), a, 0) == 10);
    lemma_winning_move_scores_ten(b, c2);
}

/// Entry `i` scores at least as well as every entry of `s`.
pub open spec fn is_max_entry(s: Seq<(u8, i32)>, i: int) -> bool {
    &&& 0 <= i < s.len()
    &&& forall|j: int| 0 <= j < s.len() ==> (#[trigger] s[j]).1 <= s[i].1
}

/// One key whose score no other entry beats; `None` exactly when there
/// are no entries.
pub fn get_max_key(move_scores: &Vec<(u8, i32)>) -> (r: Option<u8>)
    ensures
        r is Some <==> move_scores@.len() > 0,
        r matches Some(k) ==> exists|i: int|
            #[trigger] is_max_entry(move_scores@, i) && move_scores@[i].0 == k,
{
    let mut best: Option<(u8, i32)> = None;
    let mut idx: usize = 0;
    while idx < move_scores.len()
        invariant
            idx <= move_scores@.len(),
            match best {
                None => idx == 0,
                Some(p) => exists|i: int|
                    0 <= i < idx && #[trigger] move_scores@[i] == p && forall|j: int|
                        0 <= j < idx ==> (#[trigger] move_scores@[j]).1 <= p.1,
            },
        decreases move_scores@.len() - idx,
    {
        let entry = move_scores[idx];
        best = match best {
            None => Some(entry),
            Some(p) => {
                if entry.1 > p.1 {
                    Some(entry)
                } else {
                    Some(p)
                }
            },
        };
        idx = idx + 1;
    }
    match best {
        None => None,
        Some(p) => {
            proof {
                let i = choose|i: int|
                    0 <= i < move_scores@.len() && #[trigger] move_scores@[i] == p && forall|
                        j: int,
                    | 0 <= j < move_scores@.len() ==> (#[trigger] move_scores@[j]).1 <= p.1;
                assert(is_max_entry(move_scores@, i));
            }
            Some(p.0)
        },
    }
}

/// Relies on rand's `SliceRandom::choose` with `thread_rng`: it yields
/// `None` exactly on an empty slice and otherwise a borrow of the
/// element at a random index, here copied out.
#[verifier::external_body]
fn choose_random(moves: &Vec<u8>) -> (r: Option<u8>)
    ensures
        r is Some <==> moves@.len() > 0,
        r matches Some(c) ==> moves@.contains(c),
{
    moves.as_slice().choose(&mut rand::thread_rng()).copied()
}

/// Picks a cell for the side to move: `None` exactly when the game is
/// over and there is nothing to choose. On a board with two to eight
/// free cells the returned cell's search value is maximal among all
/// legal moves; on an untouched board any cell may come back (all nine
/// are equally good, so a random one is taken without searching), and
/// with a single free cell that cell comes back.
pub fn get_best_move(game: &Game) -> (r: Option<u8>)
    requires
        game.wf(),
    ensures
        r is Some <==> !game.is_over,
        r matches Some(c) ==> is_legal_play(*game, c),
        1 < open_cells(game.board@).len() < 9 ==> (r matches Some(c) ==> forall|c2: u8|
            is_legal_play(*game, c2) ==> spec_minimax(
                board_after(game.board@, c2 as int),
                active_of(game.board@),
                0,
            ) <= spec_minimax(board_after(game.board@, c as int), active_of(game.board@), 0)),
{
    let ghost b = game.board@;
    let ghost cells = open_cells(b);
    let mut moves = game.get_available_plays();
    let mut best_move: Option<u8> = choose_random(&moves);
    proof {
        lemma_num_played_bounds(b);
        lemma_open_cells_len(b);
        lemma_open_cells_from_elems(b, 0);
        match best_move {
            Some(c) => {
                lemma_open_cells_from_contains(b, 0, c);
            },
            None => {},
        }
    }
    let active_marker = game.get_active_marker();
    let mut move_scores: Vec<(u8, i32)> = Vec::new();
    if should_min_max(moves.len()) {
        let ghost n = cells.len() as int;
        proof {
            assert(moves@ =~= cells.take(moves@.len() as int));
        }
        while moves.len() > 0
            invariant
                game.wf(),
                !game.is_over,
                b == game.board@,
                cells == open_cells(b),
                active_marker == active_of(b),
                n == cells.len(),
                1 < n < 9,
                moves@ == cells.take(moves@.len() as int),
                moves@.len() + move_scores@.len() == n,
                forall|j: int|
                    0 <= j < move_scores@.len() ==> (#[trigger] move_scores@[j]).0 == cells[n - 1
                        - j] && move_scores@[j].1 as int == spec_minimax(
                        board_after(b, cells[n - 1 - j] as int),
                        active_of(b),
                        0,
                    ),
            decreases moves@.len(),
        {
            proof {
                lemma_num_played_bounds(b);
                lemma_open_cells_from_elems(b, 0);
                assert(moves@.subrange(0, moves@.len() - 1) =~= cells.take(moves@.len() - 1));
            }
            let play = moves.pop().unwrap();
            let mut game_copy = game.copy();
            game_copy.play(play);
            proof {
                lemma_num_played_bounds(game_copy.board@);
            }
            let score = mini_max(&game_copy, active_marker, 0);
            move_scores.push((play, score));
        }
        best_move = get_max_key(&move_scores);
        proof {
            match best_move {
                Some(k) => {
                    let i = choose|i: int|
                        #[trigger] is_max_entry(move_scores@, i) && move_scores@[i].0 == k;
                    assert(k == cells[n - 1 - i]);
                    assert forall|c2: u8| is_legal_play(*game, c2) implies spec_minimax(
                        board_after(b, c2 as int),
                        active_of(b),
                        0,
                    ) <= spec_minimax(board_after(b, k as int), active_of(b), 0) by {
                        lemma_open_cells_from_contains(b, 0, c2);
                        let k2 = choose|k2: int| 0 <= k2 < cells.len() && cells[k2] == c2;
                        let j2 = n - 1 - k2;
                        assert(move_scores@[j2].0 == cells[n - 1 - j2]);
                        assert((move_scores@[j2]).1 <= move_scores@[i].1);
                    }
                },
                None => {},
            }
        }
    }
    best_move
}

} // verus!
