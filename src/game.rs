//! The state of one game and the turn that moves it on.

use vstd::prelude::*;
use crate::board::{
    CellState,
    cell_index,
    empty_board,
    has_line,
    has_won,
    is_full,
    lemma_count_bounds,
    lemma_empty_board,
    lemma_only_mover_can_win,
    lemma_place_adds_one,
    occupied_count,
    wins,
};
use crate::coords::{coords_of, coords_valid, parse_coords};

verus! {

/// What became of one attempted move.
#[derive(Clone, Copy, Debug, PartialEq, Eq, Structural)]
pub enum MoveResult {
    /// The input does not name a cell; the same player tries again.
    Invalid,
    /// The cell is taken; the same player tries again.
    Occupied,
    /// The mark was placed.
    Accepted,
    /// The game is over; nothing was changed.
    Finished,
}

/// Where a game stands.
#[derive(Clone, Copy, Debug, PartialEq, Eq, Structural)]
pub enum GameStatus {
    AwaitingMove(CellState),
    Won(CellState),
    Draw,
}

/// The cell that a valid input names.
pub open spec fn target(s: Seq<char>) -> int {
    cell_index(coords_of(s).0, coords_of(s).1)
}

/// What a move with input `s` on board `b` comes to, the game being open.
pub open spec fn move_outcome(b: Seq<Option<CellState>>, s: Seq<char>) -> MoveResult {
    if !coords_valid(s) {
        MoveResult::Invalid
    } else if b[target(s)] is Some {
        MoveResult::Occupied
    } else {
        MoveResult::Accepted
    }
}

/// Relies on rand::random::<bool>, a fair coin drawn from the thread's
/// generator; nothing is known of the value.
#[verifier::external_body]
fn coin_flip() -> (r: bool) {
    rand::random::<bool>()
}

#[derive(Debug)]
pub struct GameState {
    who_moves: CellState,
    field: [Option<CellState>; 9],
    step_count: u8,
    is_won: bool,
}

impl GameState {
    /// The player whose turn it is.
    pub closed spec fn turn(&self) -> CellState {
        self.who_moves
    }

    /// The nine cells, row by row.
    pub closed spec fn board(&self) -> Seq<Option<CellState>> {
        self.field@
    }

    /// The number of moves accepted so far.
    pub closed spec fn moves(&self) -> nat {
        self.step_count as nat
    }

    pub closed spec fn won(&self) -> bool {
        self.is_won
    }

    /// The move count agrees with the board.
    pub open spec fn tallied(&self) -> bool {
        &&& self.board().len() == 9
        &&& self.moves() == occupied_count(self.board())
    }

    /// The state's invariant: the move count agrees with the board, the
    /// game is won exactly when a line is held, and then by the player who
    /// moved last.
    pub open spec fn wf(&self) -> bool {
        &&& self.tallied()
        &&& self.won() == has_line(self.board())
        &&& self.won() ==> wins(self.board(), self.turn().spec_opponent()) && !wins(
            self.board(),
            self.turn(),
        )
    }

    /// The game is over: won, or the board full.
    pub open spec fn finished(&self) -> bool {
        self.won() || is_full(self.board())
    }

    pub open spec fn spec_status(&self) -> GameStatus {
        if self.won() {
            GameStatus::Won(self.turn().spec_opponent())
        } else if is_full(self.board()) {
            GameStatus::Draw
        } else {
            GameStatus::AwaitingMove(self.turn())
        }
    }

    /// A new game on an empty board, `first` to move.
    pub fn with_first_player(first: CellState) -> (g: GameState)
        ensures
            g.wf(),
            g.turn() == first,
            g.board() == empty_board(),
            g.moves() == 0,
            !g.won(),
    {
        let g = GameState { who_moves: first, field: [None; 9], step_count: 0, is_won: false };
        proof {
            assert(g.board() =~= empty_board());
            lemma_empty_board();
        }
        g
    }

    /// A new game on an empty board; a fair coin picks who moves first.
    pub fn build() -> (g: GameState)
        ensures
            g.wf(),
            g.board() == empty_board(),
            g.moves() == 0,
            !g.won(),
    {
        let first = if coin_flip() {
            CellState::X
        } else {
            CellState::O
        };
        GameState::with_first_player(first)
    }

    /// The player whose turn it is.
    pub fn who_moves(&self) -> (r: CellState)
        ensures
            r == self.turn(),
    {
        self.who_moves
    }

    /// The number of moves accepted so far.
    pub fn step_count(&self) -> (r: u8)
        ensures
            r == self.moves(),
    {
        self.step_count
    }

    /// The cell at a 1-based row and column.
    pub fn cell(&self, row: usize, col: usize) -> (r: Option<CellState>)
        requires
            1 <= row <= 3,
            1 <= col <= 3,
        ensures
            r == self.board()[cell_index(row as int, col as int)],
    {
        self.field[3 * (row - 1) + (col - 1)]
    }

    /// The character a cell is shown as: `-` when empty, else the mark's.
    pub fn symbol_at(&self, row: usize, col: usize) -> (r: char)
        requires
            1 <= row <= 3,
            1 <= col <= 3,
        ensures
            r == match self.board()[cell_index(row as int, col as int)] {
                None => '-',
                Some(m) => m.spec_symbol(),
            },
    {
        match self.cell(row, col) {
            None => '-',
            Some(m) => m.symbol(),
        }
    }

    /// Records a win when the player to move holds a line.
    pub fn win(&mut self)
        ensures
            final(self).board() == old(self).board(),
            final(self).turn() == old(self).turn(),
            final(self).moves() == old(self).moves(),
            final(self).won() == (old(self).won() || wins(old(self).board(), old(self).turn())),
    {
        if has_won(&self.field, self.who_moves) {
            self.is_won = true;
        }
    }

    /// Places the mark of the player to move at the cell that `coords`
    /// names, if the input is valid and the cell is empty; otherwise
    /// changes nothing. Neither the turn nor the win is updated here.
    pub fn make_move(&mut self, coords: &str) -> (r: MoveResult)
        requires
            old(self).tallied(),
        ensures
            final(self).tallied(),
            r == move_outcome(old(self).board(), coords@),
            r != MoveResult::Accepted ==> *final(self) == *old(self),
            r == MoveResult::Accepted ==> {
                &&& final(self).board() == old(self).board().update(
                    target(coords@),
                    Some(old(self).turn()),
                )
                &&& final(self).moves() == old(self).moves() + 1
                &&& final(self).turn() == old(self).turn()
                &&& final(self).won() == old(self).won()
            },
    {
        let (row, col) = match parse_coords(coords) {
            Some(rc) => rc,
            None => {
                return MoveResult::Invalid;
            },
        };
        let k = 3 * (row - 1) + (col - 1);
        if self.field[k].is_some() {
            return MoveResult::Occupied;
        }
        proof {
            lemma_place_adds_one(self.board(), k as int, self.turn());
            lemma_count_bounds(self.board());
        }
        self.field[k] = Some(self.who_moves);
        self.step_count = self.step_count + 1;
        MoveResult::Accepted
    }

    /// One turn: the player to move tries the cell that `input` names.
    /// An accepted move is checked for a win and passes the turn; a
    /// rejected one changes nothing, and neither does any input once the
    /// game is over.
    pub fn update(&mut self, input: &str) -> (r: MoveResult)
        requires
            old(self).wf(),
        ensures
            final(self).wf(),
            old(self).finished() ==> r == MoveResult::Finished,
            !old(self).finished() ==> r == move_outcome(old(self).board(), input@),
            r != MoveResult::Accepted ==> *final(self) == *old(self),
            r == MoveResult::Accepted ==> {
                &&& final(self).board() == old(self).board().update(
                    target(input@),
                    Some(old(self).turn()),
                )
                &&& final(self).moves() == old(self).moves() + 1
                &&& occupied_count(final(self).board()) == occupied_count(old(self).board()) + 1
                &&& final(self).turn() == old(self).turn().spec_opponent()
                &&& final(self).won() == wins(final(self).board(), old(self).turn())
            },
    {
        proof {
            lemma_count_bounds(self.board());
        }
        if self.is_won || self.step_count == 9 {
            return MoveResult::Finished;
        }
        let ghost b = self.board();
        let r = self.make_move(input);
        if r == MoveResult::Accepted {
            proof {
                lemma_only_mover_can_win(b, target(input@), self.turn());
            }
            self.win();
            self.who_moves = self.who_moves.opponent();
        }
        r
    }

    /// Whether the game is won; under the invariant, exactly when one of
    /// the eight lines is held by a single mark.
    pub fn is_won(&self) -> (r: bool)
        requires
            self.wf(),
        ensures
            r == self.won(),
            r == has_line(self.board()),
    {
        self.is_won
    }

    /// Whether the game is drawn: every cell occupied and no line held.
    pub fn is_draw(&self) -> (r: bool)
        requires
            self.wf(),
        ensures
            r == (is_full(self.board()) && !has_line(self.board())),
    {
        proof {
            lemma_count_bounds(self.board());
        }
        !self.is_won && self.step_count == 9
    }

    /// The player who completed a line, if any.
    pub fn winner(&self) -> (r: Option<CellState>)
        requires
            self.wf(),
        ensures
            r is Some <==> has_line(self.board()),
            r matches Some(m) ==> wins(self.board(), m) && !wins(self.board(), m.spec_opponent()),
    {
        if self.is_won {
            Some(self.who_moves.opponent())
        } else {
            None
        }
    }

    /// Whose move it is, or how the game ended.
    pub fn status(&self) -> (r: GameStatus)
        requires
            self.wf(),
        ensures
            r == self.spec_status(),
    {
        proof {
            lemma_count_bounds(self.board());
        }
        if self.is_won {
            GameStatus::Won(self.who_moves.opponent())
        } else if self.step_count == 9 {
            GameStatus::Draw
        } else {
            GameStatus::AwaitingMove(self.who_moves)
        }
    }
}

} // verus!
