use vstd::prelude::*;
use vstd::string::StringExecFns;

use crate::board::num_played;
use crate::game::Game;
use crate::game::active_of;
use crate::game::open_cells;
use crate::game::play_transition;
use crate::marker::Marker;
use crate::text::digit_char;
use crate::text::digit_str;
use crate::text::parse_u8_chars;
use crate::text::parse_u8_str;
use crate::text::trim_str;
use crate::text::trimmed;
use crate::text::u8_dec_chars;
use crate::text::u8_to_string;

verus! {

/// The symbol a marker is drawn with.
pub open spec fn display_marker_of(m: Marker) -> Seq<char> {
    if m == Marker::First {
        "X"@
    } else {
        "O"@
    }
}

/// The text of one cell: the owner's symbol, or an underscore while
/// the cell is free.
pub open spec fn cell_display(b: Seq<Option<Marker>>, i: int) -> Seq<char> {
    match b[i] {
        Some(m) => display_marker_of(m),
        None => "_"@,
    }
}

/// The first `n` cells of the grid as text, cells separated by bars
/// and every row closed by a newline.
pub open spec fn board_display_upto(b: Seq<Option<Marker>>, n: int) -> Seq<char>
    decreases n,
{
    if n <= 0 {
        Seq::empty()
    } else {
        board_display_upto(b, n - 1) + cell_display(b, n - 1) + (if n % 3 == 0 {
            "\n"@
        } else {
            "|"@
        })
    }
}

/// The whole grid as three text rows.
pub open spec fn board_display(b: Seq<Option<Marker>>) -> Seq<char> {
    board_display_upto(b, 9)
}

/// The given cells as a comma-separated listing, such as "0, 1, 2".
pub open spec fn plays_listing(s: Seq<u8>) -> Seq<char>
    decreases s.len(),
{
    if s.len() == 0 {
        Seq::empty()
    } else if s.len() == 1 {
        seq![digit_char(s[0])]
    } else {
        plays_listing(s.drop_last()) + ", "@ + seq![digit_char(s.last())]
    }
}

/// The line that lists every cell that may still be played.
pub open spec fn available_plays_line(g: Game) -> Seq<char> {
    "Available spaces in order from left to right and top to bottom: "@ + plays_listing(
        if g.is_over {
            Seq::empty()
        } else {
            open_cells(g.board@)
        },
    ) + ".\n"@
}

/// The line that names the side to move.
pub open spec fn active_turn_line(g: Game) -> Seq<char> {
    display_marker_of(active_of(g.board@)) + "'s turn!\n"@
}

/// The line that names the winner; empty while nobody won.
pub open spec fn winner_line(g: Game) -> Seq<char> {
    match g.winner {
        Some(w) => display_marker_of(w) + " Wins!\n"@,
        None => Seq::empty(),
    }
}

/// The text the manager records about the move `space` before handing
/// it to the game: an off-board index or a taken cell is named, an
/// acceptable move clears the recorded text.
pub open spec fn cli_rejection(g: Game, space: u8) -> Seq<char> {
    if space > 8 {
        "Error: "@ + u8_dec_chars(space) + " is not valid.\n"@
    } else if g.board@[space as int] is Some {
        "Error: Can't play in position "@ + seq![digit_char(space)]
            + ", as it has been already played.\n"@
    } else {
        Seq::empty()
    }
}

/// The text recorded for a line that does not read as a cell number.
pub open spec fn invalid_input_message(line: Seq<char>) -> Seq<char> {
    "Error: "@ + trimmed(line) + " is not valid.\n"@
}

/// The full frame `render` produces: the grid, then the winner line on
/// a won game, "Game Over!" on a draw, and otherwise the turn line,
/// the open cells, any recorded error text and the prompt, the whole
/// frame closed by one extra newline.
pub open spec fn frame_display(c: CLIGameManager) -> Seq<char> {
    board_display(c.game.board@) + (if c.game.winner is Some {
        winner_line(c.game)
    } else if c.game.is_over {
        "Game Over!\n"@
    } else {
        active_turn_line(c.game) + available_plays_line(c.game) + (match c.error {
            Some(e) => e@,
            None => Seq::empty(),
        }) + "Enter number: \n"@
    }) + "\n"@
}

/// Drives the console conversation for one game: the game itself and
/// the text of the latest input problem. Reading lines and writing
/// frames is the caller's business; this type turns one line of input
/// into a move and the current state into the text of one frame.
pub struct CLIGameManager {
    pub game: Game,
    pub error: Option<String>,
}

impl CLIGameManager {
    pub open spec fn wf(&self) -> bool {
        self.game.wf()
    }

    pub fn new() -> (c: CLIGameManager)
        ensures
            c.wf(),
            c.error is None,
            c.game.error is None,
            c.game.winner is None,
            !c.game.is_over,
            num_played(c.game.board@) == 0,
            forall|i: int| 0 <= i < 9 ==> c.game.board@[i] is None,
    {
        CLIGameManager { game: Game::new(), error: None }
    }

    /// Handles one line of console input. Text that does not read as a
    /// cell number is only recorded as an error; a number is first
    /// checked, the check's text recorded, and then handed to the game
    /// as a move.
    pub fn input_play(&mut self, line: &str)
        requires
            old(self).wf(),
        ensures
            final(self).wf(),
            match parse_u8_chars(trimmed(line@)) {
                None => final(self).game == old(self).game && (final(self).error matches Some(e)
                    && e@ == invalid_input_message(line@)),
                Some(space) => play_transition(old(self).game, final(self).game, space)
                    && (final(self).error matches Some(e) && e@ == cli_rejection(
                    old(self).game,
                    space,
                )),
            },
    {
        let t = trim_str(line);
        match parse_u8_str(t) {
            None => {
                let mut e = String::from_str("Error: ");
                e.append(t);
                e.append(" is not valid.\n");
                proof {
                    assert(e@ =~= invalid_input_message(line@));
                }
                self.error = Some(e);
            },
            Some(space) => {
                self.set_move_error(space);
                self.game.play(space);
            },
        }
    }

    /// Records whether `space` can be played, in the words `render`
    /// later shows.
    fn set_move_error(&mut self, space: u8)
        requires
            old(self).wf(),
        ensures
            final(self).wf(),
            final(self).game == old(self).game,
            final(self).error matches Some(e) && e@ == cli_rejection(old(self).game, space),
    {
        if space > 8 {
            let mut e = String::from_str("Error: ");
            e.append(u8_to_string(space).as_str());
            e.append(" is not valid.\n");
            proof {
                assert(e@ =~= cli_rejection(old(self).game, space));
            }
            self.error = Some(e);
        } else if self.game.board.is_space_played(space) {
            let mut e = String::from_str("Error: Can't play in position ");
            e.append(digit_str(space));
            e.append(", as it has been already played.\n");
            proof {
                assert(e@ =~= cli_rejection(old(self).game, space));
            }
            self.error = Some(e);
        } else {
            self.error = Some(String::new());
            proof {
                assert(Seq::<char>::empty() =~= cli_rejection(old(self).game, space));
            }
        }
    }

    /// The full text of one frame, closed by one extra newline so a
    /// caller can write it as a single line-terminated block.
    pub fn render(&self) -> (out: String)
        requires
            self.wf(),
        ensures
            out@ == frame_display(*self),
    {
        let mut output = self.format_board_display();
        if self.game.get_winner().is_some() {
            let w = self.winner_display();
            output.append(w.as_str());
        } else if self.game.is_over {
            output.append(self.game_over_display());
        } else {
            let t = self.active_turn_display();
            output.append(t.as_str());
            let avail = self.available_plays_display();
            output.append(avail.as_str());
            match &self.error {
                Some(e) => output.append(e.as_str()),
                None => {},
            }
            output.append("Enter number: \n");
        }
        output.append("\n");
        proof {
            assert(output@ =~= frame_display(*self));
        }
        output
    }

    fn available_plays_display(&self) -> (s: String)
        requires
            self.wf(),
        ensures
            s@ == available_plays_line(self.game),
    {
        let mut display = String::new();
        let available_plays = self.game.get_available_plays();
        let ghost plays = available_plays@;
        display.append("Available spaces in order from left to right and top to bottom: ");
        let mut i: usize = 0;
        while i < available_plays.len()
            invariant
                plays == available_plays@,
                i <= plays.len(),
                forall|k: int| 0 <= k < plays.len() ==> #[trigger] plays[k] < 9,
                display@ == "Available spaces in order from left to right and top to bottom: "@
                    + plays_listing(plays.take(i as int)),
            decreases plays.len() - i,
        {
            if i > 0 {
                display.append(", ");
            }
            display.append(digit_str(available_plays[i]));
            proof {
                assert(plays.take(i as int + 1).drop_last() =~= plays.take(i as int));
                assert(plays.take(i as int + 1).last() == plays[i as int]);
                assert(display@ =~= "Available spaces in order from left to right and top to bottom: "@
                    + plays_listing(plays.take(i as int + 1)));
            }
            i = i + 1;
        }
        display.append(".\n");
        proof {
            assert(plays.take(plays.len() as int) =~= plays);
            assert(display@ =~= available_plays_line(self.game));
        }
        display
    }

    fn active_turn_display(&self) -> (s: String)
        requires
            self.wf(),
        ensures
            s@ == active_turn_line(self.game),
    {
        let mut turn_display = String::new();
        let marker = self.game.get_active_marker();
        turn_display.append(self.get_display_marker(marker));
        turn_display.append("'s turn!\n");
        proof {
            assert(turn_display@ =~= active_turn_line(self.game));
        }
        turn_display
    }

    fn winner_display(&self) -> (s: String)
        requires
            self.wf(),
        ensures
            s@ == winner_line(self.game),
    {
        let mut display = String::new();
        match self.game.get_winner() {
            Some(w) => {
                display.append(self.get_display_marker(w));
                display.append(" Wins!\n");
            },
            None => {},
        }
        proof {
            assert(display@ =~= winner_line(self.game));
        }
        display
    }

    fn game_over_display(&self) -> (r: &'static str)
        ensures
            r@ == "Game Over!\n"@,
    {
        "Game Over!\n"
    }

    fn format_board_display(&self) -> (s: String)
        requires
            self.wf(),
        ensures
            s@ == board_display(self.game.board@),
    {
        let mut board_text = String::new();
        let mut space: u8 = 1;
        while space < 10
            invariant
                self.wf(),
                1 <= space <= 10,
                board_text@ == board_display_upto(self.game.board@, space as int - 1),
            decreases 10 - space,
        {
            let marker = self.game.board.get_space_marker(space - 1);
            let space_display: &'static str = match marker {
                None => "_",
                Some(m) => self.get_display_marker(m),
            };
            board_text.append(space_display);
            if space % 3 != 0 {
                board_text.append("|");
            } else {
                board_text.append("\n");
            }
            proof {
                assert(board_text@ =~= board_display_upto(self.game.board@, space as int));
            }
            space = space + 1;
        }
        board_text
    }

    fn get_display_marker(&self, marker: Marker) -> (r: &'static str)
        ensures
            r@ == display_marker_of(marker),
    {
        if marker == Marker::First {
            "X"
        } else {
            "O"
        }
    }
}

} // verus!
