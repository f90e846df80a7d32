//! The engine: the state of one game and the operations that change it.

use crate::board::{
    lemma_count_below_bounds, lemma_discs_change, lemma_occupied_is_sum_of_discs, pos, positions,
    put, Board, Cell, Player,
};
use crate::key::Key;
use crate::moves::{legal_cells, listed};
use crate::opening::lemma_opening_moves_of_dark;
use crate::record::{delta_of, IllegalMove, MoveRecord, Score, ScoreDelta};
use crate::rules::{
    flips, legal, lemma_after_move_counts, lemma_after_move_in_steps, lemma_flips_bounds,
    lemma_turned_counts,
};
use crate::state::{
    lemma_initial_wf, lemma_listed_moves_are_legal, lemma_move_keeps_wf,
    lemma_score_counts_occupied, GameState,
};
use vstd::arithmetic::div_mod::{lemma_mod_self_0, lemma_small_mod};
use vstd::prelude::*;

verus! {

/// A game of Othello: the board, the player to move and that player's legal
/// moves, the score, the log of the moves made, and what the display needs
/// besides: a cursor, the scroll position of the log and the request to
/// end.
#[derive(Debug)]
pub struct App {
    cursor: (usize, usize),
    player: Player,
    exit: bool,
    board: Board,
    moves: Vec<(usize, usize)>,
    log: Vec<MoveRecord>,
    score: Score,
    scroll: u16,
}

/// Whether two lists hold the same cells in the same order.
fn same_cells(a: &Vec<(usize, usize)>, b: &Vec<(usize, usize)>) -> (same: bool)
    ensures
        same == (positions(a@) == positions(b@)),
{
    if a.len() != b.len() {
        assert(positions(a@).len() != positions(b@).len());
        return false;
    }
    let mut i: usize = 0;
    while i < a.len()
        invariant
            i <= a.len(),
            a.len() == b.len(),
            forall|j: int| 0 <= j < i ==> positions(a@)[j] == positions(b@)[j],
        decreases a.len() - i,
    {
        if a[i].0 != b[i].0 || a[i].1 != b[i].1 {
            assert(positions(a@)[i as int] != positions(b@)[i as int]);
            return false;
        }
        i = i + 1;
    }
    assert(positions(a@) =~= positions(b@));
    true
}

impl View for App {
    type V = GameState;

    closed spec fn view(&self) -> GameState {
        GameState {
            board: self.board@,
            player: self.player,
            dark: self.score.dark as int,
            light: self.score.light as int,
            moves: positions(self.moves@),
            log: self.log@,
            cursor: pos(self.cursor),
            scroll: self.scroll as int,
            exit: self.exit,
        }
    }
}

impl Default for App {
    /// A game at its start, with the legal moves of the first player.
    fn default() -> (app: App)
        ensures
            app@ == GameState::initial(),
            app.wf(),
            app@.moves == seq![(3int, 5int), (5int, 3int), (4int, 2int), (2int, 4int)],
    {
        let board = Board::starting();
        let moves = board.legal_moves(Player::Dark);
        proof {
            lemma_initial_wf();
            lemma_opening_moves_of_dark();
        }
        App {
            cursor: (0, 0),
            player: Player::Dark,
            exit: false,
            board,
            moves,
            log: Vec::new(),
            score: Score { dark: 2, light: 2 },
            scroll: 0,
        }
    }
}

impl App {
    /// The game is in a state between two moves.
    pub open spec fn wf(&self) -> bool {
        self@.wf()
    }

    /// Whether the game is in a state between two moves, found by counting
    /// the discs and computing the legal moves anew.
    pub fn is_consistent(&self) -> (ok: bool)
        ensures
            ok == self.wf(),
    {
        proof {
            self.board.lemma_view_wf();
            lemma_occupied_is_sum_of_discs(self@.board);
        }
        let dark = self.board.count(Player::Dark);
        let light = self.board.count(Player::Light);
        if self.score.dark < 0 || self.score.light < 0 {
            return false;
        }
        if self.score.dark as usize != dark || self.score.light as usize != light {
            return false;
        }
        if dark + light < 4 || self.log.len() != dark + light - 4 {
            return false;
        }
        if self.cursor.0 >= 8 || self.cursor.1 >= 8 {
            return false;
        }
        if self.scroll as usize > self.log.len() {
            return false;
        }
        let fresh = self.get_moves();
        same_cells(&self.moves, &fresh)
    }

    /// The legal moves of the player to move, computed from the board: each
    /// once, in the order in which the scan from that player's discs finds
    /// them.
    pub fn get_moves(&self) -> (moves: Vec<(usize, usize)>)
        ensures
            positions(moves@) == legal_cells(self@.board, self@.player),
            positions(moves@).no_duplicates(),
            forall|t: (int, int)| #[trigger]
                positions(moves@).contains(t) <==> legal(self@.board, self@.player, t),
    {
        self.board.legal_moves(self.player)
    }

    /// The second half of a move: the disc of the player to move stands at
    /// `p` already. Turns the discs that it captures and brings the score up
    /// to date, the placed disc included.
    pub fn flip_chips(&mut self, p: (usize, usize))
        requires
            old(self)@.placed_at(pos(p)),
        ensures
            final(self)@ == old(self)@.captured(pos(p)),
            final(self)@.score_matches_board(),
    {
        proof {
            lemma_turned_counts(self@.board, self@.player, pos(p));
            lemma_flips_bounds(self@.board, self@.player, pos(p), 8);
            lemma_count_below_bounds(self@.board, Cell::Occupied(self@.player), 64);
            lemma_count_below_bounds(self@.board, Cell::Occupied(self@.player.other()), 64);
        }
        let n = self.board.capture(self.player, p);
        let taken: i8 = n as i8;
        match self.player {
            Player::Dark => {
                self.score.dark = self.score.dark + 1 + taken;
                self.score.light = self.score.light - taken;
            },
            Player::Light => {
                self.score.light = self.score.light + 1 + taken;
                self.score.dark = self.score.dark - taken;
            },
        }
    }

    /// Attempts a move of the player to move at `cell`. Where the cell is
    /// not among the legal moves the attempt is rejected and nothing
    /// changes. Otherwise the disc is placed, the captured discs are turned,
    /// the score and the log follow, the turn passes to the opponent and the
    /// legal moves are computed anew; the result is the change of the score.
    pub fn attempt_move(&mut self, cell: (usize, usize)) -> (res: Result<ScoreDelta, IllegalMove>)
        requires
            old(self).wf(),
        ensures
            final(self).wf(),
            final(self)@ == old(self)@.attempt(pos(cell)),
            res is Ok <==> old(self)@.moves.contains(pos(cell)),
            res is Ok <==> legal(old(self)@.board, old(self)@.player, pos(cell)),
            old(self)@.moves.len() == 0 ==> res is Err,
            res matches Ok(delta) ==> delta == delta_of(
                old(self)@.player,
                flips(old(self)@.board, old(self)@.player, pos(cell)),
            ),
    {
        proof {
            lemma_listed_moves_are_legal(self@, pos(cell));
        }
        if !listed(&self.moves, cell) {
            return Err(IllegalMove);
        }
        let ghost s = self@;
        proof {
            lemma_score_counts_occupied(s);
            lemma_after_move_counts(s.board, s.player, pos(cell));
            lemma_after_move_in_steps(s.board, s.player, pos(cell));
            lemma_move_keeps_wf(s, pos(cell));
            let placed = put(s.board, pos(cell), Cell::Occupied(s.player));
            lemma_discs_change(s.board, placed, pos(cell), s.player);
            lemma_discs_change(s.board, placed, pos(cell), s.player.other());
        }
        let mover = self.player;
        let before = self.score;
        self.board.set(cell, Cell::Occupied(mover));
        self.flip_chips(cell);
        self.player = mover.opponent();
        self.moves = self.get_moves();
        let delta = ScoreDelta {
            dark: self.score.dark - before.dark,
            light: self.score.light - before.light,
        };
        self.log.push(MoveRecord { player: mover, cell, delta });
        Ok(delta)
    }

    /// Attempts a move at the cell that the cursor selects. An attempt that
    /// is rejected changes nothing.
    pub fn play(&mut self)
        requires
            old(self).wf(),
        ensures
            final(self).wf(),
            final(self)@ == old(self)@.attempt(old(self)@.cursor),
    {
        let cell = self.cursor;
        let _ = self.attempt_move(cell);
    }

    /// Tells the game to end.
    pub fn exit(&mut self)
        ensures
            final(self)@ == old(self)@.exited(),
            old(self).wf() ==> final(self).wf(),
    {
        self.exit = true;
    }

    /// Moves the cursor one cell to the right, and from the last cell of
    /// its line to the first.
    pub fn move_right(&mut self)
        ensures
            final(self)@ == old(self)@.moved_right(),
            old(self).wf() ==> final(self).wf(),
    {
        if self.cursor.0 < 7 {
            self.cursor.0 = self.cursor.0 + 1;
        } else {
            self.cursor.0 = 0;
        }
    }

    /// Moves the cursor one cell up, and from the last cell of its line to
    /// the first.
    pub fn move_up(&mut self)
        ensures
            final(self)@ == old(self)@.moved_up(),
            old(self).wf() ==> final(self).wf(),
    {
        if self.cursor.1 < 7 {
            self.cursor.1 = self.cursor.1 + 1;
        } else {
            self.cursor.1 = 0;
        }
    }

    /// Moves the cursor one cell down, and from the first cell of its line
    /// to the last.
    pub fn move_down(&mut self)
        ensures
            final(self)@ == old(self)@.moved_down(),
            old(self).wf() ==> final(self).wf(),
    {
        if self.cursor.1 > 0 {
            self.cursor.1 = self.cursor.1 - 1;
        } else {
            self.cursor.1 = 7;
        }
    }

    /// Moves the cursor one cell to the left, and from the first cell of
    /// its line to the last.
    pub fn move_left(&mut self)
        ensures
            final(self)@ == old(self)@.moved_left(),
            old(self).wf() ==> final(self).wf(),
    {
        if self.cursor.0 > 0 {
            self.cursor.0 = self.cursor.0 - 1;
        } else {
            self.cursor.0 = 7;
        }
    }

    /// Scrolls the display of the log one line up; at the top it stays.
    pub fn scroll_up(&mut self)
        requires
            old(self).wf(),
        ensures
            final(self).wf(),
            final(self)@ == old(self)@.scrolled_up(),
    {
        proof {
            lemma_score_counts_occupied(self@);
        }
        if self.scroll != 0 {
            let lines: u16 = self.log.len() as u16 + 1;
            proof {
                lemma_small_mod((self.scroll - 1) as nat, lines as nat);
            }
            self.scroll = (self.scroll - 1) % lines;
        }
    }

    /// Scrolls the display of the log one line down; from the end of the
    /// log it goes back to the top.
    pub fn scroll_down(&mut self)
        requires
            old(self).wf(),
        ensures
            final(self).wf(),
            final(self)@ == old(self)@.scrolled_down(),
    {
        proof {
            lemma_score_counts_occupied(self@);
        }
        let lines: u16 = self.log.len() as u16 + 1;
        proof {
            if self.scroll + 1 < lines {
                lemma_small_mod((self.scroll + 1) as nat, lines as nat);
            } else {
                lemma_mod_self_0(lines as int);
            }
        }
        self.scroll = (self.scroll + 1) % lines;
    }

    /// Acts on a key: `q` ends the game, the arrows move the cursor, Enter
    /// attempts a move at the cursor, `w` and `s` scroll the log. Any other
    /// key changes nothing.
    pub fn handle_key_event(&mut self, key: Key)
        requires
            old(self).wf(),
        ensures
            final(self).wf(),
            final(self)@ == old(self)@.on_key(key),
    {
        match key {
            Key::Char(c) => {
                if c == 'q' {
                    self.exit();
                } else if c == 'w' {
                    self.scroll_up();
                } else if c == 's' {
                    self.scroll_down();
                }
            },
            Key::Left => self.move_left(),
            Key::Right => self.move_right(),
            Key::Up => self.move_up(),
            Key::Down => self.move_down(),
            Key::Enter => self.play(),
            Key::Other => {},
        }
    }

    /// The board.
    pub fn board(&self) -> (b: &Board)
        ensures
            b@ == self@.board,
    {
        &self.board
    }

    /// The player to move.
    pub fn player(&self) -> (p: Player)
        ensures
            p == self@.player,
    {
        self.player
    }

    /// The score.
    pub fn score(&self) -> (s: Score)
        ensures
            s.dark == self@.dark,
            s.light == self@.light,
    {
        self.score
    }

    /// The legal moves of the player to move, as they were computed when
    /// the turn began.
    pub fn moves(&self) -> (m: &Vec<(usize, usize)>)
        ensures
            positions(m@) == self@.moves,
    {
        &self.moves
    }

    /// The log of the moves made, oldest first.
    pub fn log(&self) -> (l: &Vec<MoveRecord>)
        ensures
            l@ == self@.log,
    {
        &self.log
    }

    /// The cell that the cursor selects.
    pub fn cursor(&self) -> (c: (usize, usize))
        ensures
            pos(c) == self@.cursor,
    {
        self.cursor
    }

    /// How many lines the display of the log is scrolled.
    pub fn scroll(&self) -> (n: u16)
        ensures
            n == self@.scroll,
    {
        self.scroll
    }

    /// Whether the game has been told to end.
    pub fn exit_requested(&self) -> (b: bool)
        ensures
            b == self@.exit,
    {
        self.exit
    }
}

} // verus!
