//! The model of a game: its state as mathematical values, the transitions
//! that the engine makes, and what holds of every state that a game reaches.

use crate::board::{
    at, discs, grid_wf, lemma_count_below_bounds, lemma_occupied_below_bounds,
    lemma_occupied_is_sum_of_discs, lemma_opening_counts, occupied, on_board, opening, vacant,
    Cell, Grid, Player,
};
use crate::key::Key;
use crate::moves::{legal_cells, lemma_legal_cells_exact};
use crate::record::{gain, record_of, MoveRecord};
use crate::rules::{
    after_move, captures, flips, legal, lemma_after_move_counts, lemma_at_least_one_flip, turned,
};
use vstd::prelude::*;

verus! {

/// The state of a game.
pub struct GameState {
    /// The board.
    pub board: Grid,
    /// The player to move.
    pub player: Player,
    /// The score of Dark.
    pub dark: int,
    /// The score of Light.
    pub light: int,
    /// The legal moves of the player to move.
    pub moves: Seq<(int, int)>,
    /// The moves made so far, oldest first.
    pub log: Seq<MoveRecord>,
    /// The cell that the cursor selects.
    pub cursor: (int, int),
    /// How far the display of the log is scrolled.
    pub scroll: int,
    /// Whether the game has been told to end.
    pub exit: bool,
}

/// One step up on a coordinate of the cursor: past 7 comes 0.
pub open spec fn wrap_up(x: int) -> int {
    if x < 7 {
        x + 1
    } else {
        0
    }
}

/// One step down on a coordinate of the cursor: below 0 comes 7.
pub open spec fn wrap_down(x: int) -> int {
    if x > 0 {
        x - 1
    } else {
        7
    }
}

impl GameState {
    /// The state at the start of a game: the opening position, Dark to
    /// move, two discs each, nothing played.
    pub open spec fn initial() -> GameState {
        GameState {
            board: opening(),
            player: Player::Dark,
            dark: 2,
            light: 2,
            moves: legal_cells(opening(), Player::Dark),
            log: Seq::empty(),
            cursor: (0, 0),
            scroll: 0,
            exit: false,
        }
    }

    /// The score of `who`.
    pub open spec fn score_of(self, who: Player) -> int {
        match who {
            Player::Dark => self.dark,
            Player::Light => self.light,
        }
    }

    /// The score of each side is the number of its discs on the board.
    pub open spec fn score_matches_board(self) -> bool {
        &&& grid_wf(self.board)
        &&& self.dark == discs(self.board, Player::Dark)
        &&& self.light == discs(self.board, Player::Light)
    }

    /// What holds of a state between two moves: the score of each side is
    /// the number of its discs, the legal moves are those of the player to
    /// move on this board, every disc but the first four came with a move
    /// in the log, the cursor is on the board and the log is not scrolled
    /// past its end.
    pub open spec fn wf(self) -> bool {
        &&& self.score_matches_board()
        &&& self.moves == legal_cells(self.board, self.player)
        &&& self.log.len() + 4 == occupied(self.board)
        &&& on_board(self.cursor)
        &&& 0 <= self.scroll <= self.log.len()
    }

    /// The state in the middle of a move at `p`: the disc of the player to
    /// move stands at `p` and is not yet counted in the score, and nothing
    /// has been captured yet.
    pub open spec fn placed_at(self, p: (int, int)) -> bool {
        &&& grid_wf(self.board)
        &&& on_board(p)
        &&& at(self.board, p) == Cell::Occupied(self.player)
        &&& self.score_of(self.player) + 1 == discs(self.board, self.player)
        &&& self.score_of(self.player.other()) == discs(self.board, self.player.other())
    }

    /// The state after the player to move has moved at `p`: the disc is
    /// placed and the captured discs are turned, the score follows, the move
    /// is added to the log, the turn passes to the opponent, and the legal
    /// moves are those of the opponent on the new board.
    pub open spec fn after(self, p: (int, int)) -> GameState {
        let n = flips(self.board, self.player, p);
        let board = after_move(self.board, self.player, p);
        GameState {
            board,
            player: self.player.other(),
            dark: self.dark + gain(self.player, Player::Dark, n),
            light: self.light + gain(self.player, Player::Light, n),
            moves: legal_cells(board, self.player.other()),
            log: self.log.push(record_of(self.player, p, n)),
            cursor: self.cursor,
            scroll: self.scroll,
            exit: self.exit,
        }
    }

    /// The state after the disc that stands at `p` has captured: the
    /// captured discs are turned, and the score counts them and the disc at
    /// `p`.
    pub open spec fn captured(self, p: (int, int)) -> GameState {
        let n = flips(self.board, self.player, p);
        GameState {
            board: turned(self.board, self.player, p),
            dark: self.dark + gain(self.player, Player::Dark, n),
            light: self.light + gain(self.player, Player::Light, n),
            ..self
        }
    }

    /// The state after an attempt to move at `p`: that after the move where
    /// `p` is among the legal moves, and the same state where it is not.
    pub open spec fn attempt(self, p: (int, int)) -> GameState {
        if self.moves.contains(p) {
            self.after(p)
        } else {
            self
        }
    }

    /// The cursor one cell to the right: the first coordinate goes up by
    /// one, and from 7 to 0.
    pub open spec fn moved_right(self) -> GameState {
        GameState { cursor: (wrap_up(self.cursor.0), self.cursor.1), ..self }
    }

    /// The cursor one cell to the left: the first coordinate goes down by
    /// one, and from 0 to 7.
    pub open spec fn moved_left(self) -> GameState {
        GameState { cursor: (wrap_down(self.cursor.0), self.cursor.1), ..self }
    }

    /// The cursor one cell up: the second coordinate goes up by one, and
    /// from 7 to 0.
    pub open spec fn moved_up(self) -> GameState {
        GameState { cursor: (self.cursor.0, wrap_up(self.cursor.1)), ..self }
    }

    /// The cursor one cell down: the second coordinate goes down by one,
    /// and from 0 to 7.
    pub open spec fn moved_down(self) -> GameState {
        GameState { cursor: (self.cursor.0, wrap_down(self.cursor.1)), ..self }
    }

    /// The display of the log one line further up; at the top it stays.
    pub open spec fn scrolled_up(self) -> GameState {
        GameState {
            scroll: if self.scroll > 0 {
                self.scroll - 1
            } else {
                self.scroll
            },
            ..self
        }
    }

    /// The display of the log one line further down; from the end of the
    /// log it goes back to the top.
    pub open spec fn scrolled_down(self) -> GameState {
        GameState {
            scroll: if self.scroll < self.log.len() {
                self.scroll + 1
            } else {
                0
            },
            ..self
        }
    }

    /// The state told to end.
    pub open spec fn exited(self) -> GameState {
        GameState { exit: true, ..self }
    }

    /// The state after a key: `q` ends, the arrows move the cursor, Enter
    /// attempts a move at the cursor, `w` and `s` scroll the log, and any
    /// other key changes nothing.
    pub open spec fn on_key(self, key: Key) -> GameState {
        match key {
            Key::Char(c) => if c == 'q' {
                self.exited()
            } else if c == 'w' {
                self.scrolled_up()
            } else if c == 's' {
                self.scrolled_down()
            } else {
                self
            },
            Key::Left => self.moved_left(),
            Key::Right => self.moved_right(),
            Key::Up => self.moved_up(),
            Key::Down => self.moved_down(),
            Key::Enter => self.attempt(self.cursor),
            Key::Other => self,
        }
    }
}

/// In every state between two moves the two scores together count the
/// occupied cells of the board.
pub proof fn lemma_score_counts_occupied(s: GameState)
    requires
        s.wf(),
    ensures
        s.dark + s.light == occupied(s.board),
        0 <= s.dark <= 64,
        0 <= s.light <= 64,
        s.log.len() <= 60,
{
    lemma_occupied_is_sum_of_discs(s.board);
    lemma_occupied_below_bounds(s.board, 64);
    lemma_count_below_bounds(s.board, Cell::Occupied(Player::Dark), 64);
    lemma_count_below_bounds(s.board, Cell::Occupied(Player::Light), 64);
}

/// In every state between two moves each listed move is on an empty cell
/// and captures at least one opposing disc in at least one direction, and
/// every such cell is listed.
pub proof fn lemma_listed_moves_are_legal(s: GameState, p: (int, int))
    requires
        s.wf(),
    ensures
        s.moves.contains(p) <==> legal(s.board, s.player, p),
        s.moves.contains(p) ==> vacant(s.board, p) && exists|d: int|
            0 <= d < 8 && #[trigger] captures(s.board, s.player, p, d),
        s.moves.contains(p) ==> flips(s.board, s.player, p) >= 1,
{
    lemma_legal_cells_exact(s.board, s.player);
    if s.moves.contains(p) {
        assert(legal_cells(s.board, s.player).contains(p));
        let d = choose|d: int| 0 <= d < 8 && #[trigger] captures(s.board, s.player, p, d);
        lemma_at_least_one_flip(s.board, s.player, p, d);
    } else {
        assert(!legal_cells(s.board, s.player).contains(p));
    }
}

/// A legal move leads from a state between two moves to another such state.
pub proof fn lemma_move_keeps_wf(s: GameState, p: (int, int))
    requires
        s.wf(),
        s.moves.contains(p),
    ensures
        s.after(p).wf(),
{
    lemma_listed_moves_are_legal(s, p);
    lemma_after_move_counts(s.board, s.player, p);
    lemma_occupied_is_sum_of_discs(s.board);
    lemma_occupied_is_sum_of_discs(s.after(p).board);
}

/// An attempt, whether it succeeds or not, leads from a state between two
/// moves to another such state.
pub proof fn lemma_attempt_keeps_wf(s: GameState, p: (int, int))
    requires
        s.wf(),
    ensures
        s.attempt(p).wf(),
{
    if s.moves.contains(p) {
        lemma_move_keeps_wf(s, p);
    }
}

/// The state at the start of a game is a state between two moves.
pub proof fn lemma_initial_wf()
    ensures
        GameState::initial().wf(),
{
    lemma_opening_counts();
}

/// An attempt at a cell that is not a legal move changes nothing, however
/// often it is made.
pub proof fn lemma_rejected_attempt_changes_nothing(s: GameState, p: (int, int))
    requires
        !s.moves.contains(p),
    ensures
        s.attempt(p) == s,
        s.attempt(p).attempt(p) == s,
{
}

/// After a successful attempt the player to move is the opponent of the
/// player who moved, and the legal moves are those of that opponent on the
/// board as the move left it.
pub proof fn lemma_turn_passes(s: GameState, p: (int, int))
    requires
        s.moves.contains(p),
    ensures
        s.attempt(p).player == s.player.other(),
        s.attempt(p).player != s.player,
        s.attempt(p).board == after_move(s.board, s.player, p),
        s.attempt(p).moves == legal_cells(s.attempt(p).board, s.attempt(p).player),
{
}

/// Where the player to move has no legal move, no attempt changes the
/// state, whatever cell it names.
pub proof fn lemma_no_moves_no_change(s: GameState, p: (int, int))
    requires
        s.moves.len() == 0,
    ensures
        !s.moves.contains(p),
        s.attempt(p) == s,
{
}

/// Whatever key is pressed, a state between two moves is followed by
/// another such state.
pub proof fn lemma_key_keeps_wf(s: GameState, key: Key)
    requires
        s.wf(),
    ensures
        s.on_key(key).wf(),
{
    lemma_attempt_keeps_wf(s, s.cursor);
}

} // verus!
