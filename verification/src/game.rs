use vstd::prelude::*;
use vstd::string::StringExecFns;

use crate::board::Board;
use crate::board::lemma_num_played_bounds;
use crate::board::lemma_num_played_update;
use crate::board::num_played;
use crate::board::num_played_upto;
use crate::marker::Marker;
use crate::marker::other;
use crate::text::digit_char;
use crate::text::digit_str;
use crate::text::u8_dec_chars;
use crate::text::u8_to_string;
use crate::winning_plays::get_winning_plays;
use crate::winning_plays::lemma_table_complete;
use crate::winning_plays::lemma_table_line_wins_through;
use crate::winning_plays::lemma_wins_through_implies_wins;
use crate::winning_plays::lemma_wins_update;
use crate::winning_plays::marker_in_all_positions;
use crate::winning_plays::table_wf;
use crate::winning_plays::wins;
use crate::winning_plays::wins_through;

verus! {

/// Whose turn it is on board `b`: `First` always opens, so the side to
/// move is derived from the parity of the number of played cells.
pub open spec fn active_of(b: Seq<Option<Marker>>) -> Marker {
    if num_played(b) % 2 == 0 {
        Marker::First
    } else {
        Marker::Second
    }
}

/// A move is legal when the game is still running, the index is on the
/// board, and the cell is free.
pub open spec fn is_legal_play(g: Game, space: u8) -> bool {
    &&& !g.is_over
    &&& space < 9
    &&& g.board@[space as int] is None
}

/// The free cells of `b` with index at least `i`, in ascending order.
pub open spec fn open_cells_from(b: Seq<Option<Marker>>, i: int) -> Seq<u8>
    decreases 9 - i,
{
    if i >= 9 {
        Seq::empty()
    } else if 0 <= i < b.len() && b[i] is None {
        seq![i as u8] + open_cells_from(b, i + 1)
    } else {
        open_cells_from(b, i + 1)
    }
}

/// All free cells of `b`, in ascending order.
pub open spec fn open_cells(b: Seq<Option<Marker>>) -> Seq<u8> {
    open_cells_from(b, 0)
}

pub proof fn lemma_open_cells_from_len(b: Seq<Option<Marker>>, i: int)
    requires
        b.len() == 9,
        0 <= i <= 9,
    ensures
        open_cells_from(b, i).len() == (9 - i) - (num_played_upto(b, 9) - num_played_upto(b, i)),
    decreases 9 - i,
{
    if i < 9 {
        lemma_open_cells_from_len(b, i + 1);
    }
}

/// There are as many free cells as cells not yet played.
pub proof fn lemma_open_cells_len(b: Seq<Option<Marker>>)
    requires
        b.len() == 9,
    ensures
        open_cells(b).len() == 9 - num_played(b),
{
    lemma_open_cells_from_len(b, 0);
}

pub proof fn lemma_open_cells_from_elems(b: Seq<Option<Marker>>, i: int)
    requires
        b.len() == 9,
        0 <= i <= 9,
    ensures
        forall|k: int|
            0 <= k < open_cells_from(b, i).len() ==> i <= #[trigger] open_cells_from(b, i)[k] < 9
                && b[open_cells_from(b, i)[k] as int] is None,
    decreases 9 - i,
{
    if i < 9 {
        lemma_open_cells_from_elems(b, i + 1);
    }
}

/// A cell occurs among the free cells exactly when it is free.
pub proof fn lemma_open_cells_from_contains(b: Seq<Option<Marker>>, i: int, c: u8)
    requires
        b.len() == 9,
        0 <= i <= 9,
    ensures
        open_cells_from(b, i).contains(c) <==> (i <= c < 9 && b[c as int] is None),
    decreases 9 - i,
{
    if i < 9 {
        lemma_open_cells_from_contains(b, i + 1, c);
        let rest = open_cells_from(b, i + 1);
        if 0 <= i < b.len() && b[i] is None {
            let s = seq![i as u8] + rest;
            assert(s[0] == i as u8);
            if i <= c < 9 && b[c as int] is None && c != i {
                let j = choose|j: int| 0 <= j < rest.len() && rest[j] == c;
                assert(s[j + 1] == c);
            }
            if s.contains(c) {
                let j = choose|j: int| 0 <= j < s.len() && s[j] == c;
                if j > 0 {
                    assert(rest[j - 1] == c);
                }
            }
        }
    }
}

/// The free cells are listed in strictly ascending order.
pub proof fn lemma_open_cells_sorted(b: Seq<Option<Marker>>, i: int)
    requires
        b.len() == 9,
        0 <= i <= 9,
    ensures
        forall|k1: int, k2: int|
            0 <= k1 < k2 < open_cells_from(b, i).len() ==> #[trigger] open_cells_from(b, i)[k1]
                < #[trigger] open_cells_from(b, i)[k2],
    decreases 9 - i,
{
    if i < 9 {
        lemma_open_cells_sorted(b, i + 1);
        lemma_open_cells_from_elems(b, i + 1);
    }
}

/// Playing any free cell hands the turn to the other player.
pub proof fn lemma_turn_alternates(b: Seq<Option<Marker>>, c: int, m: Marker)
    requires
        0 <= c < b.len(),
        b[c] is None,
    ensures
        active_of(b.update(c, Some(m))) == other(active_of(b)),
{
    lemma_num_played_update(b, c, m);
    lemma_num_played_bounds(b);
}

/// Rejection text when the game has already ended.
pub open spec fn game_over_message() -> Seq<char> {
    "Can't play after game is over."@
}

/// Rejection text for a cell that already holds a marker.
pub open spec fn occupied_message(space: u8) -> Seq<char> {
    "Can't play in position "@ + seq![digit_char(space)] + ", as it has been already played."@
}

/// Rejection text for an index outside the board.
pub open spec fn invalid_index_message(space: u8) -> Seq<char> {
    "Can't play in position "@ + u8_dec_chars(space) + ", as it is not on the board."@
}

/// The rejection text `play` records for an illegal move on `g`.
pub open spec fn rejection_message(g: Game, space: u8) -> Seq<char> {
    if g.is_over {
        game_over_message()
    } else if space >= 9 {
        invalid_index_message(space)
    } else {
        occupied_message(space)
    }
}

/// How one call of `Game::play` at `space` relates the state before
/// the call to the state after it. A legal move places the active
/// marker, hands the turn over, records the winner exactly when the
/// move completed a line, and ends the game exactly when the board is
/// full or somebody won; an illegal move changes nothing but the
/// recorded rejection text.
pub open spec fn play_transition(pre: Game, post: Game, space: u8) -> bool {
    &&& post.winning_plays@ == pre.winning_plays@
    &&& if is_legal_play(pre, space) {
        let a = active_of(pre.board@);
        &&& post.board@ == pre.board@.update(space as int, Some(a))
        &&& post.winner == (if wins(post.board@, a) {
            Some(a)
        } else {
            None::<Marker>
        })
        &&& num_played(post.board@) == num_played(pre.board@) + 1
        &&& post.is_over == (num_played(post.board@) == 9 || post.winner is Some)
        &&& post.error == pre.error
        &&& active_of(post.board@) == other(a)
    } else {
        &&& post.board@ == pre.board@
        &&& post.winner == pre.winner
        &&& post.is_over == pre.is_over
        &&& post.error matches Some(e) && e@ == rejection_message(pre, space)
    }
}

/// One running game: the board, the rejection text of the latest
/// illegal move, the terminal flag, the recorded winner, and the fixed
/// winning-line table.
pub struct Game {
    pub board: Board,
    pub error: Option<String>,
    pub is_over: bool,
    pub winner: Option<Marker>,
    pub winning_plays: Vec<Vec<[u8; 3]>>,
}

impl Game {
    /// The state invariant: the terminal flag and the recorded winner
    /// are exactly what the board shows. A winner owns a line; a side
    /// that owns a line is the winner; the game is over exactly when
    /// the board is full or somebody won.
    pub open spec fn wf(&self) -> bool {
        &&& self.board.wf()
        &&& table_wf(self.winning_plays@)
        &&& self.is_over == (num_played(self.board@) == 9 || self.winner is Some)
        &&& (self.winner == Some(Marker::First) <==> wins(self.board@, Marker::First))
        &&& (self.winner == Some(Marker::Second) <==> wins(self.board@, Marker::Second))
    }

    pub fn new() -> (g: Game)
        ensures
            g.wf(),
            num_played(g.board@) == 0,
            forall|i: int| 0 <= i < 9 ==> g.board@[i] is None,
            !g.is_over,
            g.winner is None,
            g.error is None,
            active_of(g.board@) == Marker::First,
    {
        Game {
            board: Board::new(),
            error: None,
            is_over: false,
            winner: None,
            winning_plays: get_winning_plays(),
        }
    }

    /// Applies the move of the side to move at cell `space` if it is
    /// legal. An illegal move leaves the whole game state unchanged
    /// and only records a rejection text naming the reason: the game
    /// being over, the index being off the board, or the cell being
    /// taken. After a legal move the winner is recorded exactly when
    /// the move completed a line, and the game is over exactly when
    /// the board is full or somebody won.
    pub fn play(&mut self, space: u8)
        requires
            old(self).wf(),
        ensures
            final(self).wf(),
            play_transition(*old(self), *final(self), space),
    {
        let ghost old_g: Game = *self;
        let active_marker = self.get_active_marker();
        if !self.is_valid_move(space) {
            self.set_move_error(space);
        } else {
            self.board.play(space, active_marker);
            proof {
                lemma_num_played_bounds(old_g.board@);
                lemma_num_played_update(old_g.board@, space as int, active_marker);
                lemma_wins_update(old_g.board@, Marker::First, space as int, active_marker);
                lemma_wins_update(old_g.board@, Marker::Second, space as int, active_marker);
                lemma_turn_alternates(old_g.board@, space as int, active_marker);
            }
        }
        if self.board.is_full() {
            self.is_over = true;
        }
        if self.is_winning_play(space, active_marker) {
            proof {
                lemma_wins_through_implies_wins(self.board@, active_marker, space as int);
            }
            self.winner = Some(active_marker);
            self.is_over = true;
        }
    }

    /// The marker of the side to move, derived from the count of
    /// played cells; well defined even after the game has ended.
    pub fn get_active_marker(&self) -> (m: Marker)
        requires
            self.board.wf(),
        ensures
            m == active_of(self.board@),
    {
        proof {
            lemma_num_played_bounds(self.board@);
        }
        if self.board.count_played() % 2 == 0 {
            Marker::First
        } else {
            Marker::Second
        }
    }

    /// The recorded winner, or `None` while the game is undecided or
    /// ended in a draw.
    pub fn get_winner(&self) -> (w: Option<Marker>)
        ensures
            w == self.winner,
    {
        self.winner
    }

    /// Every cell that `play` would currently accept, in ascending
    /// order; empty once the game is over.
    pub fn get_available_plays(&self) -> (r: Vec<u8>)
        requires
            self.wf(),
        ensures
            r@ == (if self.is_over {
                Seq::<u8>::empty()
            } else {
                open_cells(self.board@)
            }),
            forall|k: int| 0 <= k < r@.len() ==> is_legal_play(*self, #[trigger] r@[k]),
            forall|k1: int, k2: int|
                0 <= k1 < k2 < r@.len() ==> #[trigger] r@[k1] < #[trigger] r@[k2],
    {
        let mut r: Vec<u8> = Vec::new();
        if self.is_over {
            return r;
        }
        let mut c: u8 = 0;
        while c < 9
            invariant
                self.wf(),
                !self.is_over,
                c <= 9,
                r@ + open_cells_from(self.board@, c as int) == open_cells(self.board@),
            decreases 9 - c,
        {
            if !self.board.is_space_played(c) {
                r.push(c);
                proof {
                    assert(r@ + open_cells_from(self.board@, c as int + 1) =~= open_cells(
                        self.board@,
                    ));
                }
            }
            c = c + 1;
        }
        proof {
            assert(r@ =~= open_cells(self.board@));
            lemma_open_cells_from_elems(self.board@, 0);
            lemma_open_cells_sorted(self.board@, 0);
        }
        r
    }

    /// An independent game with the same state: mutating either copy
    /// afterwards cannot affect the other, since nothing is shared.
    pub fn copy(&self) -> (g: Game)
        requires
            self.wf(),
        ensures
            g.wf(),
            g.board@ == self.board@,
            g.is_over == self.is_over,
            g.winner == self.winner,
            g.error is Some <==> self.error is Some,
            (g.error matches Some(e) ==> self.error matches Some(e0) && e@ == e0@),
    {
        let mut spaces: Vec<Option<Marker>> = Vec::new();
        let mut i: usize = 0;
        while i < 9
            invariant
                self.board.wf(),
                i <= 9,
                spaces@ == self.board@.subrange(0, i as int),
            decreases 9 - i,
        {
            spaces.push(self.board.spaces[i]);
            proof {
                assert(spaces@ =~= self.board@.subrange(0, i as int + 1));
            }
            i = i + 1;
        }
        proof {
            assert(spaces@ =~= self.board@);
        }
        let error = match &self.error {
            None => None,
            Some(e) => Some(e.clone()),
        };
        Game {
            board: Board { spaces },
            error,
            is_over: self.is_over,
            winner: self.winner,
            winning_plays: get_winning_plays(),
        }
    }

    /// Whether marker `m` owns a winning line through cell `space`;
    /// only the lines of the table entry for `space` are examined,
    /// which the table's invariant shows to be enough.
    fn is_winning_play(&self, space: u8, marker: Marker) -> (r: bool)
        requires
            self.board.wf(),
            table_wf(self.winning_plays@),
        ensures
            r == wins_through(self.board@, marker, space as int),
    {
        if space >= 9 {
            return false;
        }
        let lines = &self.winning_plays[space as usize];
        let mut k: usize = 0;
        while k < lines.len()
            invariant
                self.board.wf(),
                table_wf(self.winning_plays@),
                space < 9,
                lines == &self.winning_plays@[space as int],
                k <= lines@.len(),
                forall|j: int|
                    0 <= j < k ==> !marker_in_all_positions(
                        self.board@,
                        marker,
                        #[trigger] lines@[j],
                    ),
            decreases lines@.len() - k,
        {
            if self.is_marker_in_all_positions(&lines[k], marker) {
                proof {
                    lemma_table_line_wins_through(
                        self.winning_plays@,
                        self.board@,
                        marker,
                        space as int,
                        k as int,
                    );
                }
                return true;
            }
            k = k + 1;
        }
        proof {
            lemma_table_complete(self.winning_plays@, self.board@, marker, space as int);
        }
        false
    }

    /// Whether marker `m` occupies all three cells of `winning_play`.
    fn is_marker_in_all_positions(&self, winning_play: &[u8; 3], marker: Marker) -> (r: bool)
        requires
            self.board.wf(),
            winning_play@[0] < 9,
            winning_play@[1] < 9,
            winning_play@[2] < 9,
        ensures
            r == marker_in_all_positions(self.board@, marker, *winning_play),
    {
        let c0 = match self.board.get_space_marker(winning_play[0]) {
            Some(mm) => mm == marker,
            None => false,
        };
        let c1 = match self.board.get_space_marker(winning_play[1]) {
            Some(mm) => mm == marker,
            None => false,
        };
        let c2 = match self.board.get_space_marker(winning_play[2]) {
            Some(mm) => mm == marker,
            None => false,
        };
        c0 && c1 && c2
    }

    fn is_valid_move(&self, space: u8) -> (r: bool)
        requires
            self.board.wf(),
        ensures
            r == is_legal_play(*self, space),
    {
        !self.is_over && space < 9 && !self.board.is_space_played(space)
    }

    /// Records why the attempted move at `space` was rejected.
    fn set_move_error(&mut self, space: u8)
        requires
            old(self).board.wf(),
            !is_legal_play(*old(self), space),
        ensures
            final(self).board == old(self).board,
            final(self).is_over == old(self).is_over,
            final(self).winner == old(self).winner,
            final(self).winning_plays == old(self).winning_plays,
            final(self).error matches Some(e) && e@ == rejection_message(*old(self), space),
    {
        if self.is_over {
            self.error = Some(String::from_str("Can't play after game is over."));
        } else if space > 8 {
            let mut e = String::from_str("Can't play in position ");
            e.append(u8_to_string(space).as_str());
            e.append(", as it is not on the board.");
            proof {
                assert(e@ =~= invalid_index_message(space));
            }
            self.error = Some(e);
        } else {
            let mut e = String::from_str("Can't play in position ");
            e.append(digit_str(space));
            e.append(", as it has been already played.");
            proof {
                assert(e@ =~= occupied_message(space));
            }
            self.error = Some(e);
        }
    }
}

} // verus!
