//! The 3×3 board as nine cells in row-major order, its eight lines, and
//! what can be said of a board: who owns a line, how many cells are taken.

use vstd::prelude::*;

verus! {

/// A player's mark.
#[derive(Clone, Copy, Debug, PartialEq, Eq, Structural)]
pub enum CellState {
    X,
    O,
}

impl CellState {
    pub open spec fn spec_opponent(self) -> CellState {
        match self {
            CellState::X => CellState::O,
            CellState::O => CellState::X,
        }
    }

    pub open spec fn spec_symbol(self) -> char {
        match self {
            CellState::X => 'X',
            CellState::O => 'O',
        }
    }

    /// The other player's mark.
    pub fn opponent(self) -> (r: CellState)
        ensures
            r == self.spec_opponent(),
    {
        match self {
            CellState::X => CellState::O,
            CellState::O => CellState::X,
        }
    }

    /// The character the mark is shown as.
    pub fn symbol(self) -> (r: char)
        ensures
            r == self.spec_symbol(),
    {
        match self {
            CellState::X => 'X',
            CellState::O => 'O',
        }
    }
}

/// The index of the cell at a 1-based row and column.
pub open spec fn cell_index(row: int, col: int) -> int {
    3 * (row - 1) + (col - 1)
}

/// The `j`-th cell (0..3) of line `l` (0..8): rows are lines 0 to 2,
/// columns lines 3 to 5, the main diagonal line 6 and the other one line 7.
pub open spec fn line_cell(l: int, j: int) -> int {
    if l < 3 {
        3 * l + j
    } else if l < 6 {
        3 * j + (l - 3)
    } else if l == 6 {
        4 * j
    } else {
        2 + 2 * j
    }
}

/// All three cells of line `l` hold `m`.
pub open spec fn line_owned(b: Seq<Option<CellState>>, l: int, m: CellState) -> bool {
    forall|j: int| 0 <= j < 3 ==> b[#[trigger] line_cell(l, j)] == Some(m)
}

/// `m` owns at least one of the eight lines.
pub open spec fn wins(b: Seq<Option<CellState>>, m: CellState) -> bool {
    exists|l: int| 0 <= l < 8 && #[trigger] line_owned(b, l, m)
}

/// Some line is held entirely by one mark.
pub open spec fn has_line(b: Seq<Option<CellState>>) -> bool {
    wins(b, CellState::X) || wins(b, CellState::O)
}

pub open spec fn is_full(b: Seq<Option<CellState>>) -> bool {
    forall|k: int| 0 <= k < b.len() ==> #[trigger] b[k] is Some
}

pub open spec fn empty_board() -> Seq<Option<CellState>> {
    Seq::new(9, |k: int| None)
}

/// The number of occupied cells.
pub open spec fn occupied_count(b: Seq<Option<CellState>>) -> nat
    decreases b.len(),
{
    if b.len() == 0 {
        0
    } else {
        occupied_count(b.drop_last()) + if b.last() is Some {
            1nat
        } else {
            0nat
        }
    }
}

/// Taking an empty cell adds exactly one to the number of occupied cells,
/// and leaves every other cell as it was.
pub proof fn lemma_place_adds_one(b: Seq<Option<CellState>>, k: int, m: CellState)
    requires
        0 <= k < b.len(),
        b[k] is None,
    ensures
        occupied_count(b.update(k, Some(m))) == occupied_count(b) + 1,
        forall|i: int| 0 <= i < b.len() && i != k ==> #[trigger] b.update(k, Some(m))[i] == b[i],
    decreases b.len(),
{
    let c = b.update(k, Some(m));
    if k < b.len() - 1 {
        assert(c.drop_last() =~= b.drop_last().update(k, Some(m)));
        lemma_place_adds_one(b.drop_last(), k, m);
    } else {
        assert(c.drop_last() =~= b.drop_last());
    }
}

/// The count of occupied cells is at most the number of cells, and equal
/// to it exactly when every cell is occupied.
pub proof fn lemma_count_bounds(b: Seq<Option<CellState>>)
    ensures
        occupied_count(b) <= b.len(),
        occupied_count(b) == b.len() <==> is_full(b),
        (forall|k: int| 0 <= k < b.len() ==> #[trigger] b[k] is None) ==> occupied_count(b) == 0,
    decreases b.len(),
{
    if b.len() > 0 {
        let d = b.drop_last();
        lemma_count_bounds(d);
        if is_full(b) {
            assert forall|k: int| 0 <= k < d.len() implies #[trigger] d[k] is Some by {
                assert(b[k] is Some);
            }
        }
        if occupied_count(b) == b.len() {
            assert forall|k: int| 0 <= k < b.len() implies #[trigger] b[k] is Some by {
                if k < d.len() {
                    assert(d[k] is Some);
                }
            }
        }
        if forall|k: int| 0 <= k < b.len() ==> #[trigger] b[k] is None {
            assert forall|k: int| 0 <= k < d.len() implies #[trigger] d[k] is None by {
                assert(b[k] is None);
            }
        }
    }
}

/// The empty board has no occupied cell and no line.
pub proof fn lemma_empty_board()
    ensures
        occupied_count(empty_board()) == 0,
        !has_line(empty_board()),
{
    let b = empty_board();
    lemma_count_bounds(b);
    assert forall|m: CellState, l: int| 0 <= l < 8 implies !#[trigger] line_owned(b, l, m) by {
        assert(b[line_cell(l, 0)] is None);
    }
}

/// Once no line is held, a move by `m` cannot complete a line for the
/// other player: a line it completes holds `m`.
pub proof fn lemma_only_mover_can_win(b: Seq<Option<CellState>>, k: int, m: CellState)
    requires
        b.len() == 9,
        0 <= k < 9,
        !has_line(b),
    ensures
        !wins(b.update(k, Some(m)), m.spec_opponent()),
{
    let c = b.update(k, Some(m));
    let o = m.spec_opponent();
    if wins(c, o) {
        let l = choose|l: int| 0 <= l < 8 && #[trigger] line_owned(c, l, o);
        assert forall|j: int| 0 <= j < 3 implies b[#[trigger] line_cell(l, j)] == Some(o) by {
            assert(c[line_cell(l, j)] == Some(o));
        }
        assert(line_owned(b, l, o));
    }
}

/// Whether line `l` is held entirely by `m`.
fn line_owned_by(b: &[Option<CellState>; 9], l: usize, m: CellState) -> (r: bool)
    requires
        l < 8,
    ensures
        r == line_owned(b@, l as int, m),
{
    let (i0, i1, i2): (usize, usize, usize) = if l < 3 {
        (3 * l, 3 * l + 1, 3 * l + 2)
    } else if l < 6 {
        (l - 3, l, l + 3)
    } else if l == 6 {
        (0, 4, 8)
    } else {
        (2, 4, 6)
    };
    assert(i0 == line_cell(l as int, 0) && i1 == line_cell(l as int, 1) && i2 == line_cell(
        l as int,
        2,
    ));
    let r = holds(b[i0], m) && holds(b[i1], m) && holds(b[i2], m);
    proof {
        if r {
            assert forall|j: int| 0 <= j < 3 implies b@[#[trigger] line_cell(l as int, j)] == Some(
                m,
            ) by {
                if j == 1 {
                    assert(line_cell(l as int, j) == i1);
                } else if j == 2 {
                    assert(line_cell(l as int, j) == i2);
                }
            }
        } else {
            assert(!(b@[line_cell(l as int, 0)] == Some(m) && b@[line_cell(l as int, 1)] == Some(m)
                && b@[line_cell(l as int, 2)] == Some(m)));
        }
    }
    r
}

/// Whether a cell holds `m`.
fn holds(c: Option<CellState>, m: CellState) -> (r: bool)
    ensures
        r == (c == Some(m)),
{
    match c {
        Some(v) => v == m,
        None => false,
    }
}

/// Whether `m` holds one of the eight lines.
pub fn has_won(b: &[Option<CellState>; 9], m: CellState) -> (r: bool)
    ensures
        r == wins(b@, m),
{
    let mut l: usize = 0;
    while l < 8
        invariant
            l <= 8,
            forall|i: int| 0 <= i < l ==> !#[trigger] line_owned(b@, i, m),
        decreases 8 - l,
    {
        if line_owned_by(b, l, m) {
            return true;
        }
        l = l + 1;
    }
    false
}

} // verus!
