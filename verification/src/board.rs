//! The board and its mathematical model: players, cells, positions, the
//! eight directions of travel and the disc counts.

use vstd::prelude::*;

verus! {

/// One of the two sides. Dark moves first.
#[derive(Clone, Copy, Debug, PartialEq, Eq, Structural)]
pub enum Player {
    Dark,
    Light,
}

impl Player {
    /// The other side.
    pub open spec fn other(self) -> Player {
        match self {
            Player::Dark => Player::Light,
            Player::Light => Player::Dark,
        }
    }

    /// The other side.
    #[verifier::when_used_as_spec(other)]
    pub fn opponent(self) -> (p: Player)
        ensures
            p == self.other(),
    {
        match self {
            Player::Dark => Player::Light,
            Player::Light => Player::Dark,
        }
    }
}

/// What one square of the board holds.
#[derive(Clone, Copy, Debug, PartialEq, Eq, Structural)]
pub enum Cell {
    Empty,
    Occupied(Player),
}

/// The model of a board: eight rows of eight cells.
pub type Grid = Seq<Seq<Cell>>;

/// A grid has eight rows of eight cells each.
pub open spec fn grid_wf(g: Grid) -> bool {
    &&& g.len() == 8
    &&& forall|r: int| 0 <= r < 8 ==> (#[trigger] g[r]).len() == 8
}

/// The position lies on the board.
pub open spec fn on_board(p: (int, int)) -> bool {
    0 <= p.0 < 8 && 0 <= p.1 < 8
}

/// The cell at a position.
pub open spec fn at(g: Grid, p: (int, int)) -> Cell {
    g[p.0][p.1]
}

/// The position is on the board and holds a disc of `who`.
pub open spec fn holds(g: Grid, p: (int, int), who: Player) -> bool {
    on_board(p) && at(g, p) == Cell::Occupied(who)
}

/// The position is on the board and holds no disc.
pub open spec fn vacant(g: Grid, p: (int, int)) -> bool {
    on_board(p) && at(g, p) == Cell::Empty
}

/// The grid `g` with `v` at position `p`.
pub open spec fn put(g: Grid, p: (int, int), v: Cell) -> Grid {
    g.update(p.0, g[p.0].update(p.1, v))
}

/// A position given by machine integers, as the model sees it.
pub open spec fn pos(p: (usize, usize)) -> (int, int) {
    (p.0 as int, p.1 as int)
}

/// A list of positions given by machine integers, as the model sees it.
pub open spec fn positions(v: Seq<(usize, usize)>) -> Seq<(int, int)> {
    v.map_values(|p: (usize, usize)| pos(p))
}

/// The position reached from `p` by `k` steps in direction `d`. The eight
/// directions are numbered 0 to 7; any other number counts as 7.
pub open spec fn ray(p: (int, int), d: int, k: int) -> (int, int) {
    if d == 0 {
        (p.0, p.1 + k)
    } else if d == 1 {
        (p.0 + k, p.1)
    } else if d == 2 {
        (p.0, p.1 - k)
    } else if d == 3 {
        (p.0 - k, p.1)
    } else if d == 4 {
        (p.0 - k, p.1 + k)
    } else if d == 5 {
        (p.0 + k, p.1 - k)
    } else if d == 6 {
        (p.0 + k, p.1 + k)
    } else {
        (p.0 - k, p.1 - k)
    }
}

/// The direction that runs against `d`.
pub open spec fn reverse(d: int) -> int {
    if d == 0 {
        2
    } else if d == 1 {
        3
    } else if d == 2 {
        0
    } else if d == 3 {
        1
    } else if d == 4 {
        5
    } else if d == 5 {
        4
    } else if d == 6 {
        7
    } else {
        6
    }
}

/// The position with the given number, counting row by row.
pub open spec fn nth_cell(i: int) -> (int, int) {
    (i / 8, i % 8)
}

/// How many of the first `i` positions, counted row by row, hold `v`.
pub open spec fn count_below(g: Grid, v: Cell, i: int) -> int
    decreases i,
{
    if i <= 0 {
        0
    } else {
        count_below(g, v, i - 1) + if at(g, nth_cell(i - 1)) == v {
            1int
        } else {
            0int
        }
    }
}

/// How many discs of `who` lie on the board.
pub open spec fn discs(g: Grid, who: Player) -> int {
    count_below(g, Cell::Occupied(who), 64)
}

/// How many of the first `i` positions, counted row by row, hold a disc.
pub open spec fn occupied_below(g: Grid, i: int) -> int
    decreases i,
{
    if i <= 0 {
        0
    } else {
        occupied_below(g, i - 1) + if at(g, nth_cell(i - 1)) is Occupied {
            1int
        } else {
            0int
        }
    }
}

/// How many cells of the board hold a disc.
pub open spec fn occupied(g: Grid) -> int {
    occupied_below(g, 64)
}

/// Every occupied cell holds a disc of exactly one side.
pub proof fn lemma_occupied_below_splits(g: Grid, i: int)
    ensures
        occupied_below(g, i) == count_below(g, Cell::Occupied(Player::Dark), i) + count_below(
            g,
            Cell::Occupied(Player::Light),
            i,
        ),
    decreases i,
{
    if i > 0 {
        lemma_occupied_below_splits(g, i - 1);
    }
}

/// The discs of the two sides together are the occupied cells.
pub proof fn lemma_occupied_is_sum_of_discs(g: Grid)
    ensures
        occupied(g) == discs(g, Player::Dark) + discs(g, Player::Light),
{
    lemma_occupied_below_splits(g, 64);
}

/// A count lies between zero and the number of positions counted.
pub proof fn lemma_count_below_bounds(g: Grid, v: Cell, i: int)
    requires
        0 <= i,
    ensures
        0 <= count_below(g, v, i) <= i,
    decreases i,
{
    if i > 0 {
        lemma_count_below_bounds(g, v, i - 1);
    }
}

/// No more cells are occupied than were counted.
pub proof fn lemma_occupied_below_bounds(g: Grid, i: int)
    requires
        0 <= i,
    ensures
        0 <= occupied_below(g, i) <= i,
    decreases i,
{
    if i > 0 {
        lemma_occupied_below_bounds(g, i - 1);
    }
}

/// Where two grids differ in one position only, a count changes by what
/// that position lost and gained.
pub proof fn lemma_count_below_change(g: Grid, h: Grid, p: (int, int), v: Cell, i: int)
    requires
        on_board(p),
        0 <= i <= 64,
        forall|q: (int, int)| on_board(q) && q != p ==> #[trigger] at(h, q) == at(g, q),
    ensures
        count_below(h, v, i) == count_below(g, v, i) + if p.0 * 8 + p.1 < i {
            (if at(h, p) == v {
                1int
            } else {
                0int
            }) - (if at(g, p) == v {
                1int
            } else {
                0int
            })
        } else {
            0int
        },
    decreases i,
{
    if i > 0 {
        lemma_count_below_change(g, h, p, v, i - 1);
        let q = nth_cell(i - 1);
        assert(on_board(q));
        assert(q == p <==> p.0 * 8 + p.1 == i - 1);
    }
}

/// Replacing the content of one position changes the number of discs of a
/// side by what that position lost and gained.
pub proof fn lemma_discs_change(g: Grid, h: Grid, p: (int, int), who: Player)
    requires
        on_board(p),
        forall|q: (int, int)| on_board(q) && q != p ==> #[trigger] at(h, q) == at(g, q),
    ensures
        discs(h, who) == discs(g, who) + (if at(h, p) == Cell::Occupied(who) {
            1int
        } else {
            0int
        }) - (if at(g, p) == Cell::Occupied(who) {
            1int
        } else {
            0int
        }),
{
    lemma_count_below_change(g, h, p, Cell::Occupied(who), 64);
}

/// An 8x8 board of cells.
#[derive(Clone, Copy, Debug)]
pub struct Board {
    cells: [[Cell; 8]; 8],
}

impl View for Board {
    type V = Grid;

    closed spec fn view(&self) -> Grid {
        Seq::new(8, |r: int| self.cells@[r]@)
    }
}

impl Board {
    /// The model of every board has eight rows of eight cells.
    pub proof fn lemma_view_wf(&self)
        ensures
            grid_wf(self@),
    {
    }

    /// A board without discs.
    pub fn empty() -> (b: Board)
        ensures
            b@ == blank(),
    {
        let b = Board { cells: [[Cell::Empty; 8]; 8] };
        assert(b@ =~~= blank());
        b
    }

    /// The board at the start of a game: two discs of each side on the four
    /// central cells, each side on one diagonal.
    pub fn starting() -> (b: Board)
        ensures
            b@ == opening(),
    {
        let mut b = Board::empty();
        b.set((3, 3), Cell::Occupied(Player::Dark));
        b.set((3, 4), Cell::Occupied(Player::Light));
        b.set((4, 3), Cell::Occupied(Player::Light));
        b.set((4, 4), Cell::Occupied(Player::Dark));
        proof {
            assert(b@ =~~= opening());
        }
        b
    }

    /// The cell at `p`.
    pub fn get(&self, p: (usize, usize)) -> (v: Cell)
        requires
            on_board(pos(p)),
        ensures
            v == at(self@, pos(p)),
    {
        self.cells[p.0][p.1]
    }

    /// The number of discs of `who` on the board, counted cell by cell.
    pub fn count(&self, who: Player) -> (n: usize)
        ensures
            n == discs(self@, who),
            n <= 64,
    {
        let mut n: usize = 0;
        let mut i: usize = 0;
        while i < 64
            invariant
                i <= 64,
                n <= i,
                n == count_below(self@, Cell::Occupied(who), i as int),
            decreases 64 - i,
        {
            if self.get((i / 8, i % 8)) == Cell::Occupied(who) {
                n = n + 1;
            }
            i = i + 1;
        }
        n
    }

    /// Puts `v` at `p` and leaves every other cell as it is.
    pub fn set(&mut self, p: (usize, usize), v: Cell)
        requires
            on_board(pos(p)),
        ensures
            final(self)@ == put(old(self)@, pos(p), v),
    {
        self.cells[p.0][p.1] = v;
        assert(self@ =~~= put(old(self)@, pos(p), v));
    }
}

/// The grid without discs.
pub open spec fn blank() -> Grid {
    Seq::new(8, |r: int| Seq::new(8, |c: int| Cell::Empty))
}

/// The grid at the start of a game.
pub open spec fn opening() -> Grid {
    Seq::new(
        8,
        |r: int|
            Seq::new(
                8,
                |c: int|
                    if (r == 3 && c == 3) || (r == 4 && c == 4) {
                        Cell::Occupied(Player::Dark)
                    } else if (r == 3 && c == 4) || (r == 4 && c == 3) {
                        Cell::Occupied(Player::Light)
                    } else {
                        Cell::Empty
                    },
            ),
    )
}

/// A board without discs counts none.
pub proof fn lemma_blank_counts(g: Grid, who: Player, i: int)
    requires
        0 <= i <= 64,
        forall|p: (int, int)| on_board(p) ==> #[trigger] at(g, p) == Cell::Empty,
    ensures
        count_below(g, Cell::Occupied(who), i) == 0,
    decreases i,
{
    if i > 0 {
        lemma_blank_counts(g, who, i - 1);
        assert(on_board(nth_cell(i - 1)));
    }
}

/// The opening position holds two discs of each side.
pub proof fn lemma_opening_counts()
    ensures
        grid_wf(opening()),
        discs(opening(), Player::Dark) == 2,
        discs(opening(), Player::Light) == 2,
        occupied(opening()) == 4,
{
    lemma_occupied_is_sum_of_discs(opening());
    let dark = Cell::Occupied(Player::Dark);
    let light = Cell::Occupied(Player::Light);
    let g0 = blank();
    let g1 = put(g0, (3, 3), dark);
    let g2 = put(g1, (3, 4), light);
    let g3 = put(g2, (4, 3), light);
    let g4 = put(g3, (4, 4), dark);
    assert(g4 =~~= opening());
    lemma_blank_counts(g0, Player::Dark, 64);
    lemma_blank_counts(g0, Player::Light, 64);
    lemma_discs_change(g0, g1, (3, 3), Player::Dark);
    lemma_discs_change(g0, g1, (3, 3), Player::Light);
    lemma_discs_change(g1, g2, (3, 4), Player::Dark);
    lemma_discs_change(g1, g2, (3, 4), Player::Light);
    lemma_discs_change(g2, g3, (4, 3), Player::Dark);
    lemma_discs_change(g2, g3, (4, 3), Player::Light);
    lemma_discs_change(g3, g4, (4, 4), Player::Dark);
    lemma_discs_change(g3, g4, (4, 4), Player::Light);
}

} // verus!
