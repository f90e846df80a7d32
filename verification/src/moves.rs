//! The cells open to the player to move, found by scanning outward from
//! that player's own discs.

use crate::board::{
    holds, nth_cell, pos, positions, ray, reverse, vacant, Board, Cell, Grid, Player,
};
use crate::rules::{brackets, captures, legal, lemma_capture_len, lemma_ray_reversed, run};
use vstd::prelude::*;

verus! {

/// A walk from the disc of `mover` at `s` in direction `d` crosses `n >= 1`
/// opposing discs and then stops on an empty cell.
pub open spec fn reaches(g: Grid, mover: Player, s: (int, int), d: int, n: int) -> bool {
    &&& n >= 1
    &&& holds(g, s, mover)
    &&& run(g, mover.other(), s, d, n)
    &&& vacant(g, ray(s, d, n + 1))
}

/// The empty cell that a walk from `s` in direction `d` finds for `mover`,
/// if it finds one.
pub open spec fn found(g: Grid, mover: Player, s: (int, int), d: int) -> Option<(int, int)> {
    if exists|n: int| reaches(g, mover, s, d, n) {
        Some(ray(s, d, (choose|n: int| reaches(g, mover, s, d, n)) + 1))
    } else {
        None
    }
}

/// The scan visits the cells row by row and, at each cell, the eight
/// directions in turn. This is what its walk number `j` finds.
pub open spec fn found_at(g: Grid, mover: Player, j: int) -> Option<(int, int)> {
    found(g, mover, nth_cell(j / 8), j % 8)
}

/// The cells that the first `i` walks of the scan found, each listed once,
/// where it was first found.
pub open spec fn scan(g: Grid, mover: Player, i: int) -> Seq<(int, int)>
    decreases i,
{
    if i <= 0 {
        Seq::empty()
    } else {
        let before = scan(g, mover, i - 1);
        match found_at(g, mover, i - 1) {
            Some(t) => if before.contains(t) {
                before
            } else {
                before.push(t)
            },
            None => before,
        }
    }
}

/// The legal moves of `mover` in the order in which the scan of the whole
/// board finds them.
pub open spec fn legal_cells(g: Grid, mover: Player) -> Seq<(int, int)> {
    scan(g, mover, 512)
}

/// A walk that finds an empty cell finds only one.
pub proof fn lemma_reach_unique(g: Grid, mover: Player, s: (int, int), d: int, n: int, m: int)
    requires
        reaches(g, mover, s, d, n),
        reaches(g, mover, s, d, m),
    ensures
        n == m,
{
    if n < m {
        assert(holds(g, ray(s, d, n + 1), mover.other()));
    }
    if m < n {
        assert(holds(g, ray(s, d, m + 1), mover.other()));
    }
}

/// A walk that crossed `n` opposing discs and stopped on anything else
/// finds the cell it stopped on, where it started on a disc of `mover`,
/// crossed at least one disc and stopped on an empty cell; otherwise it
/// finds nothing.
pub proof fn lemma_walk_finds(g: Grid, mover: Player, s: (int, int), d: int, n: int)
    requires
        0 <= n,
        run(g, mover.other(), s, d, n),
        !holds(g, ray(s, d, n + 1), mover.other()),
    ensures
        found(g, mover, s, d) == if holds(g, s, mover) && n >= 1 && vacant(g, ray(s, d, n + 1)) {
            Some(ray(s, d, n + 1))
        } else {
            None
        },
{
    if holds(g, s, mover) && n >= 1 && vacant(g, ray(s, d, n + 1)) {
        assert(reaches(g, mover, s, d, n));
        let m = choose|m: int| reaches(g, mover, s, d, m);
        lemma_reach_unique(g, mover, s, d, n, m);
    } else {
        assert forall|m: int| !reaches(g, mover, s, d, m) by {
            if reaches(g, mover, s, d, m) {
                if m < n {
                    assert(holds(g, ray(s, d, m + 1), mover.other()));
                } else if m > n {
                    assert(holds(g, ray(s, d, n + 1), mover.other()));
                }
            }
        }
    }
}

/// What a walk finds is a legal move: seen from the empty cell, the discs
/// that the walk crossed are bracketed by the disc that the walk began on.
pub proof fn lemma_found_is_legal(g: Grid, mover: Player, s: (int, int), d: int)
    requires
        0 <= d < 8,
        found(g, mover, s, d) is Some,
    ensures
        legal(g, mover, found(g, mover, s, d)->0),
{
    let n = choose|n: int| reaches(g, mover, s, d, n);
    let t = ray(s, d, n + 1);
    let back = reverse(d);
    assert forall|k: int| 1 <= k <= n implies #[trigger] holds(
        g,
        ray(t, back, k),
        mover.other(),
    ) by {
        lemma_ray_reversed(s, d, n + 1, k);
        assert(holds(g, ray(s, d, n + 1 - k), mover.other()));
    }
    lemma_ray_reversed(s, d, n + 1, n + 1);
    assert(brackets(g, mover, t, back, n));
    assert(captures(g, mover, t, back));
}

/// Every legal move is found by the walk that starts on the disc at the
/// far end of a run that the move captures and goes back along that run.
/// The result is the number of that walk in the scan.
pub proof fn lemma_legal_is_found(g: Grid, mover: Player, t: (int, int)) -> (j: int)
    requires
        legal(g, mover, t),
    ensures
        0 <= j < 512,
        found_at(g, mover, j) == Some(t),
{
    let d = choose|d: int| 0 <= d < 8 && #[trigger] captures(g, mover, t, d);
    lemma_capture_len(g, mover, t, d);
    let n = choose|n: int| brackets(g, mover, t, d, n);
    let s = ray(t, d, n + 1);
    let back = reverse(d);
    assert forall|k: int| 1 <= k <= n implies #[trigger] holds(
        g,
        ray(s, back, k),
        mover.other(),
    ) by {
        lemma_ray_reversed(t, d, n + 1, k);
        assert(holds(g, ray(t, d, n + 1 - k), mover.other()));
    }
    lemma_ray_reversed(t, d, n + 1, n + 1);
    assert(reaches(g, mover, s, back, n));
    let m = choose|m: int| reaches(g, mover, s, back, m);
    lemma_reach_unique(g, mover, s, back, n, m);
    let j = (s.0 * 8 + s.1) * 8 + back;
    assert(nth_cell(j / 8) == s);
    assert(j % 8 == back);
    j
}

/// The scan lists a cell exactly if one of its walks found it, and lists
/// no cell twice.
pub proof fn lemma_scan_lists_found(g: Grid, mover: Player, i: int)
    requires
        0 <= i,
    ensures
        scan(g, mover, i).no_duplicates(),
        forall|t: (int, int)|
            scan(g, mover, i).contains(t) <==> exists|j: int|
                0 <= j < i && #[trigger] found_at(g, mover, j) == Some(t),
    decreases i,
{
    if i > 0 {
        lemma_scan_lists_found(g, mover, i - 1);
        let before = scan(g, mover, i - 1);
        let now = scan(g, mover, i);
        assert forall|t: (int, int)|
            now.contains(t) <==> exists|j: int|
                0 <= j < i && #[trigger] found_at(g, mover, j) == Some(t) by {
            if now.contains(t) {
                let k = choose|k: int| 0 <= k < now.len() && now[k] == t;
                if k < before.len() && now == before {
                    assert(before.contains(t));
                } else if now != before {
                    if k < before.len() {
                        assert(before[k] == t);
                        assert(before.contains(t));
                    } else {
                        assert(found_at(g, mover, i - 1) == Some(t));
                    }
                }
            }
            if exists|j: int| 0 <= j < i && #[trigger] found_at(g, mover, j) == Some(t) {
                let j = choose|j: int| 0 <= j < i && #[trigger] found_at(g, mover, j) == Some(t);
                if j < i - 1 {
                    assert(before.contains(t));
                    let k = choose|k: int| 0 <= k < before.len() && before[k] == t;
                    assert(now[k] == t);
                } else {
                    if !before.contains(t) {
                        assert(now[before.len() as int] == t);
                    } else {
                        let k = choose|k: int| 0 <= k < before.len() && before[k] == t;
                        assert(now[k] == t);
                    }
                }
            }
        }
    }
}

/// The scan of the whole board lists exactly the legal moves, each once.
pub proof fn lemma_legal_cells_exact(g: Grid, mover: Player)
    ensures
        legal_cells(g, mover).no_duplicates(),
        forall|t: (int, int)| #[trigger] legal_cells(g, mover).contains(t) <==> legal(g, mover, t),
{
    lemma_scan_lists_found(g, mover, 512);
    assert forall|t: (int, int)| #[trigger]
        legal_cells(g, mover).contains(t) <==> legal(g, mover, t) by {
        if legal_cells(g, mover).contains(t) {
            let j = choose|j: int| 0 <= j < 512 && #[trigger] found_at(g, mover, j) == Some(t);
            lemma_found_is_legal(g, mover, nth_cell(j / 8), j % 8);
        }
        if legal(g, mover, t) {
            let j = lemma_legal_is_found(g, mover, t);
        }
    }
}

/// One walk of the scan: where walk number `i` crosses `n` opposing discs
/// and stops on anything else, the cell it stopped on joins the list if the
/// walk found it and the list does not hold it yet.
pub proof fn lemma_scan_step(g: Grid, mover: Player, i: int, n: int)
    requires
        0 <= i,
        0 <= n,
        run(g, mover.other(), nth_cell(i / 8), i % 8, n),
        !holds(g, ray(nth_cell(i / 8), i % 8, n + 1), mover.other()),
    ensures
        scan(g, mover, i + 1) == if holds(g, nth_cell(i / 8), mover) && n >= 1 && vacant(
            g,
            ray(nth_cell(i / 8), i % 8, n + 1),
        ) && !scan(g, mover, i).contains(ray(nth_cell(i / 8), i % 8, n + 1)) {
            scan(g, mover, i).push(ray(nth_cell(i / 8), i % 8, n + 1))
        } else {
            scan(g, mover, i)
        },
{
    lemma_walk_finds(g, mover, nth_cell(i / 8), i % 8, n);
}

/// The cell with number `c` holds no disc of `mover`: the first `d` walks
/// that start on it add nothing to the list.
pub proof fn lemma_cell_skipped(g: Grid, mover: Player, c: int, d: int)
    requires
        0 <= c,
        0 <= d <= 8,
        !holds(g, nth_cell(c), mover),
    ensures
        scan(g, mover, 8 * c + d) == scan(g, mover, 8 * c),
    decreases d,
{
    if d > 0 {
        lemma_cell_skipped(g, mover, c, d - 1);
        assert((8 * c + d - 1) / 8 == c);
    }
}

/// Whether `p` is in the list.
pub fn listed(list: &Vec<(usize, usize)>, p: (usize, usize)) -> (b: bool)
    ensures
        b == positions(list@).contains(pos(p)),
{
    let mut i: usize = 0;
    while i < list.len()
        invariant
            i <= list.len(),
            forall|j: int| 0 <= j < i ==> positions(list@)[j] != pos(p),
        decreases list.len() - i,
    {
        if list[i].0 == p.0 && list[i].1 == p.1 {
            assert(positions(list@)[i as int] == pos(p));
            return true;
        }
        i = i + 1;
    }
    false
}

impl Board {
    /// The legal moves of `mover`. Every cell that holds a disc of `mover`
    /// is visited, row by row; from it a walk goes out in each of the eight
    /// directions, and where the walk crosses at least one opposing disc and
    /// then stops on an empty cell, that cell is a legal move. Each legal
    /// move is listed once, in the order in which the walks find them.
    pub fn legal_moves(&self, mover: Player) -> (moves: Vec<(usize, usize)>)
        ensures
            positions(moves@) == legal_cells(self@, mover),
            positions(moves@).no_duplicates(),
            forall|t: (int, int)| #[trigger]
                positions(moves@).contains(t) <==> legal(self@, mover, t),
    {
        let mut moves: Vec<(usize, usize)> = Vec::new();
        let mut r: usize = 0;
        assert(positions(moves@) =~= scan(self@, mover, 0));
        while r < 8
            invariant
                r <= 8,
                positions(moves@) == scan(self@, mover, r * 64),
            decreases 8 - r,
        {
            let mut c: usize = 0;
            while c < 8
                invariant
                    r < 8,
                    c <= 8,
                    positions(moves@) == scan(self@, mover, (r * 8 + c) * 8),
                decreases 8 - c,
            {
                let ghost i = ((r * 8 + c) * 8) as int;
                assert(nth_cell(i / 8) == pos((r, c)));
                if self.get((r, c)) == Cell::Occupied(mover) {
                    let mut d: usize = 0;
                    while d < 8
                        invariant
                            r < 8,
                            c < 8,
                            d <= 8,
                            i == (r * 8 + c) * 8,
                            holds(self@, pos((r, c)), mover),
                            positions(moves@) == scan(self@, mover, i + d),
                        decreases 8 - d,
                    {
                        let (n, end) = self.walk(mover.opponent(), (r, c), d);
                        proof {
                            assert(nth_cell((i + d) / 8) == pos((r, c)));
                            assert((i + d) % 8 == d);
                            lemma_scan_step(self@, mover, i + d, n as int);
                        }
                        if n > 0 {
                            match end {
                                Some(e) => {
                                    if self.get(e) == Cell::Empty && !listed(&moves, e) {
                                        let ghost before = moves@;
                                        moves.push(e);
                                        assert(positions(moves@) =~= positions(before).push(
                                            pos(e),
                                        ));
                                    }
                                },
                                None => {},
                            }
                        }
                        d = d + 1;
                    }
                } else {
                    proof {
                        lemma_cell_skipped(self@, mover, (r * 8 + c) as int, 8);
                    }
                }
                c = c + 1;
            }
            r = r + 1;
        }
        proof {
            lemma_legal_cells_exact(self@, mover);
        }
        moves
    }
}

} // verus!
