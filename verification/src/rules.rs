//! The rules of capture, stated over the model of the board: which runs of
//! discs a placement brackets, which cells are legal, and what the board
//! looks like after a move.

use crate::board::{
    at, discs, grid_wf, holds, lemma_discs_change, on_board, put, ray, reverse, vacant, Cell, Grid,
    Player,
};
use vstd::prelude::*;

verus! {

/// The `n` cells that follow `p` in direction `d` are on the board and all
/// hold a disc of `who`.
pub open spec fn run(g: Grid, who: Player, p: (int, int), d: int, n: int) -> bool {
    forall|k: int| 1 <= k <= n ==> #[trigger] holds(g, ray(p, d, k), who)
}

/// A disc of `mover` at `p` brackets `n` opposing discs in direction `d`:
/// the next `n >= 1` cells hold opposing discs and the cell after them
/// holds a disc of `mover`.
pub open spec fn brackets(g: Grid, mover: Player, p: (int, int), d: int, n: int) -> bool {
    &&& n >= 1
    &&& run(g, mover.other(), p, d, n)
    &&& holds(g, ray(p, d, n + 1), mover)
}

/// A disc of `mover` at `p` captures a run in direction `d`.
pub open spec fn captures(g: Grid, mover: Player, p: (int, int), d: int) -> bool {
    exists|n: int| brackets(g, mover, p, d, n)
}

/// The length of the run that a disc of `mover` at `p` captures in
/// direction `d`, or 0 where it captures none.
pub open spec fn capture_len(g: Grid, mover: Player, p: (int, int), d: int) -> int {
    if captures(g, mover, p, d) {
        choose|n: int| brackets(g, mover, p, d, n)
    } else {
        0
    }
}

/// `mover` may place a disc at `p`: the cell is empty and the disc would
/// capture a run in at least one of the eight directions.
pub open spec fn legal(g: Grid, mover: Player, p: (int, int)) -> bool {
    &&& vacant(g, p)
    &&& exists|d: int| 0 <= d < 8 && #[trigger] captures(g, mover, p, d)
}

/// The cell `q` lies in a run that a disc of `mover` at `p` captures.
pub open spec fn flipped(g: Grid, mover: Player, p: (int, int), q: (int, int)) -> bool {
    exists|d: int, k: int|
        0 <= d < 8 && 1 <= k <= capture_len(g, mover, p, d) && q == #[trigger] ray(p, d, k)
}

/// The number of discs that a disc of `mover` at `p` captures in the
/// directions below `d`.
pub open spec fn flips_below(g: Grid, mover: Player, p: (int, int), d: int) -> int
    decreases d,
{
    if d <= 0 {
        0
    } else {
        flips_below(g, mover, p, d - 1) + capture_len(g, mover, p, d - 1)
    }
}

/// The number of discs that a disc of `mover` at `p` captures.
pub open spec fn flips(g: Grid, mover: Player, p: (int, int)) -> int {
    flips_below(g, mover, p, 8)
}

/// The grid in which every disc that a disc of `mover` at `p` captures has
/// changed sides; all other cells, `p` among them, are as in `g`.
pub open spec fn turned(g: Grid, mover: Player, p: (int, int)) -> Grid {
    Seq::new(
        8,
        |r: int|
            Seq::new(
                8,
                |c: int|
                    if flipped(g, mover, p, (r, c)) {
                        Cell::Occupied(mover)
                    } else {
                        at(g, (r, c))
                    },
            ),
    )
}

/// The grid after `mover` has moved at `p`: the disc stands at `p`, every
/// captured disc has changed sides, and nothing else has changed.
pub open spec fn after_move(g: Grid, mover: Player, p: (int, int)) -> Grid {
    Seq::new(
        8,
        |r: int|
            Seq::new(
                8,
                |c: int|
                    if (r, c) == p || flipped(g, mover, p, (r, c)) {
                        Cell::Occupied(mover)
                    } else {
                        at(g, (r, c))
                    },
            ),
    )
}

/// Two rays from one position meet only where direction and distance agree,
/// and no ray comes back to its origin.
pub proof fn lemma_rays_apart(p: (int, int), d: int, k: int, e: int, j: int)
    requires
        0 <= d < 8,
        0 <= e < 8,
        1 <= k,
        1 <= j,
    ensures
        ray(p, d, k) != p,
        ray(p, d, k) == ray(p, e, j) ==> d == e && k == j,
{
}

/// Walking back along a ray: the cell `k` steps from the far end is the cell
/// `n - k` steps from the origin.
pub proof fn lemma_ray_reversed(p: (int, int), d: int, n: int, k: int)
    requires
        0 <= d < 8,
    ensures
        0 <= reverse(d) < 8,
        reverse(reverse(d)) == d,
        ray(ray(p, d, n), reverse(d), k) == ray(p, d, n - k),
        ray(p, d, 0) == p,
{
}

/// In one direction a disc brackets at most one run.
pub proof fn lemma_bracket_unique(g: Grid, mover: Player, p: (int, int), d: int, n: int, m: int)
    requires
        brackets(g, mover, p, d, n),
        brackets(g, mover, p, d, m),
    ensures
        n == m,
{
    if n < m {
        assert(holds(g, ray(p, d, n + 1), mover.other()));
    }
    if m < n {
        assert(holds(g, ray(p, d, m + 1), mover.other()));
    }
}

/// The length of a captured run is the length of the run that is
/// bracketed, and 0 where none is.
pub proof fn lemma_capture_len(g: Grid, mover: Player, p: (int, int), d: int)
    ensures
        capture_len(g, mover, p, d) >= 0,
        capture_len(g, mover, p, d) > 0 <==> captures(g, mover, p, d),
        captures(g, mover, p, d) ==> brackets(g, mover, p, d, capture_len(g, mover, p, d)),
        forall|n: int| brackets(g, mover, p, d, n) ==> capture_len(g, mover, p, d) == n,
{
    if captures(g, mover, p, d) {
        let m = choose|n: int| brackets(g, mover, p, d, n);
        assert forall|n: int| brackets(g, mover, p, d, n) implies capture_len(g, mover, p, d)
            == n by {
            lemma_bracket_unique(g, mover, p, d, n, m);
        }
    }
}

/// What a disc at `p` captures does not depend on what stands at `p`.
pub proof fn lemma_capture_ignores_origin(g: Grid, h: Grid, mover: Player, p: (int, int), d: int)
    requires
        0 <= d < 8,
        forall|q: (int, int)| on_board(q) && q != p ==> #[trigger] at(h, q) == at(g, q),
    ensures
        forall|n: int| brackets(h, mover, p, d, n) == brackets(g, mover, p, d, n),
        captures(h, mover, p, d) == captures(g, mover, p, d),
        capture_len(h, mover, p, d) == capture_len(g, mover, p, d),
{
    assert forall|n: int| brackets(h, mover, p, d, n) == brackets(g, mover, p, d, n) by {
        if brackets(g, mover, p, d, n) {
            lemma_brackets_same(g, h, mover, p, d, n);
        }
        if brackets(h, mover, p, d, n) {
            lemma_brackets_same(h, g, mover, p, d, n);
        }
    }
    lemma_capture_len(g, mover, p, d);
    lemma_capture_len(h, mover, p, d);
}

/// A bracket stays one in a grid that agrees with `g` everywhere but at `p`.
proof fn lemma_brackets_same(g: Grid, h: Grid, mover: Player, p: (int, int), d: int, n: int)
    requires
        0 <= d < 8,
        forall|q: (int, int)| on_board(q) && q != p ==> #[trigger] at(h, q) == at(g, q),
        brackets(g, mover, p, d, n),
    ensures
        brackets(h, mover, p, d, n),
{
    assert forall|k: int| 1 <= k <= n implies #[trigger] holds(
        h,
        ray(p, d, k),
        mover.other(),
    ) by {
        assert(holds(g, ray(p, d, k), mover.other()));
        lemma_rays_apart(p, d, k, d, k);
    }
    lemma_rays_apart(p, d, n + 1, d, n + 1);
}

/// The cell `q` lies in a run that a disc of `mover` at `p` captures in a
/// direction below `d`, or among the first `k` cells of the run that it
/// captures in direction `d`.
pub open spec fn flipped_before(
    g: Grid,
    mover: Player,
    p: (int, int),
    q: (int, int),
    d: int,
    k: int,
) -> bool {
    exists|e: int, j: int|
        0 <= e < 8 && 1 <= j <= capture_len(g, mover, p, e) && (e < d || (e == d && j <= k)) && q
            == #[trigger] ray(p, e, j)
}

/// The grid while the captured discs are being turned: those that
/// `flipped_before` names have changed sides, the others have not yet.
pub open spec fn partly_turned(g: Grid, mover: Player, p: (int, int), d: int, k: int) -> Grid {
    Seq::new(
        8,
        |r: int|
            Seq::new(
                8,
                |c: int|
                    if flipped_before(g, mover, p, (r, c), d, k) {
                        Cell::Occupied(mover)
                    } else {
                        at(g, (r, c))
                    },
            ),
    )
}

/// Before any disc is turned the grid is as it was.
pub proof fn lemma_partly_turned_start(g: Grid, mover: Player, p: (int, int))
    requires
        grid_wf(g),
    ensures
        partly_turned(g, mover, p, 0, 0) == g,
{
    assert(partly_turned(g, mover, p, 0, 0) =~~= g);
}

/// Once the runs of all eight directions are turned the grid is `turned`.
pub proof fn lemma_partly_turned_end(g: Grid, mover: Player, p: (int, int))
    ensures
        partly_turned(g, mover, p, 8, 0) == turned(g, mover, p),
{
    assert forall|q: (int, int)|
        flipped_before(g, mover, p, q, 8, 0) == flipped(g, mover, p, q) by {
        if flipped(g, mover, p, q) {
            let (d, k) = choose|d: int, k: int|
                0 <= d < 8 && 1 <= k <= capture_len(g, mover, p, d) && q == #[trigger] ray(p, d, k);
            assert(q == ray(p, d, k));
        }
    }
    assert(partly_turned(g, mover, p, 8, 0) =~~= turned(g, mover, p));
}

/// With the whole run of direction `d` turned, the next direction begins.
pub proof fn lemma_partly_turned_next(g: Grid, mover: Player, p: (int, int), d: int)
    requires
        0 <= d < 8,
    ensures
        partly_turned(g, mover, p, d, capture_len(g, mover, p, d)) == partly_turned(
            g,
            mover,
            p,
            d + 1,
            0,
        ),
{
    let n = capture_len(g, mover, p, d);
    assert forall|q: (int, int)|
        flipped_before(g, mover, p, q, d, n) == flipped_before(g, mover, p, q, d + 1, 0) by {
        if flipped_before(g, mover, p, q, d, n) {
            let (e, j) = choose|e: int, j: int|
                0 <= e < 8 && 1 <= j <= capture_len(g, mover, p, e) && (e < d || (e == d && j <= n))
                    && q == #[trigger] ray(p, e, j);
            assert(q == ray(p, e, j));
        }
        if flipped_before(g, mover, p, q, d + 1, 0) {
            let (e, j) = choose|e: int, j: int|
                0 <= e < 8 && 1 <= j <= capture_len(g, mover, p, e) && (e < d + 1 || (e == d + 1
                    && j <= 0)) && q == #[trigger] ray(p, e, j);
            assert(q == ray(p, e, j));
        }
    }
    assert(partly_turned(g, mover, p, d, n) =~~= partly_turned(g, mover, p, d + 1, 0));
}

/// Turning one more disc of the run of direction `d` changes the cell
/// `k + 1` steps from `p` from the opponent's disc to the mover's, and no
/// other cell.
pub proof fn lemma_partly_turned_step(g: Grid, mover: Player, p: (int, int), d: int, k: int)
    requires
        grid_wf(g),
        0 <= d < 8,
        0 <= k < capture_len(g, mover, p, d),
    ensures
        on_board(ray(p, d, k + 1)),
        at(partly_turned(g, mover, p, d, k), ray(p, d, k + 1)) == Cell::Occupied(mover.other()),
        partly_turned(g, mover, p, d, k + 1) == put(
            partly_turned(g, mover, p, d, k),
            ray(p, d, k + 1),
            Cell::Occupied(mover),
        ),
{
    let n = capture_len(g, mover, p, d);
    let t = ray(p, d, k + 1);
    lemma_capture_len(g, mover, p, d);
    assert(holds(g, t, mover.other()));
    assert(!flipped_before(g, mover, p, t, d, k)) by {
        if flipped_before(g, mover, p, t, d, k) {
            let (e, j) = choose|e: int, j: int|
                0 <= e < 8 && 1 <= j <= capture_len(g, mover, p, e) && (e < d || (e == d && j <= k))
                    && t == #[trigger] ray(p, e, j);
            lemma_rays_apart(p, d, k + 1, e, j);
        }
    }
    assert(flipped_before(g, mover, p, t, d, k + 1)) by {
        assert(t == ray(p, d, k + 1));
    }
    assert forall|q: (int, int)| q != t implies flipped_before(g, mover, p, q, d, k + 1)
        == flipped_before(g, mover, p, q, d, k) by {
        if flipped_before(g, mover, p, q, d, k + 1) {
            let (e, j) = choose|e: int, j: int|
                0 <= e < 8 && 1 <= j <= capture_len(g, mover, p, e) && (e < d || (e == d && j <= k
                    + 1)) && q == #[trigger] ray(p, e, j);
            assert(q == ray(p, e, j));
        }
        if flipped_before(g, mover, p, q, d, k) {
            let (e, j) = choose|e: int, j: int|
                0 <= e < 8 && 1 <= j <= capture_len(g, mover, p, e) && (e < d || (e == d && j <= k))
                    && q == #[trigger] ray(p, e, j);
            assert(q == ray(p, e, j));
        }
    }
    assert(partly_turned(g, mover, p, d, k + 1) =~~= put(
        partly_turned(g, mover, p, d, k),
        t,
        Cell::Occupied(mover),
    ));
}

/// Each disc that is turned adds one to the mover's discs and takes one
/// from the opponent's.
pub proof fn lemma_partly_turned_counts(g: Grid, mover: Player, p: (int, int), d: int, k: int)
    requires
        grid_wf(g),
        0 <= d <= 8,
        0 <= k,
        d < 8 ==> k <= capture_len(g, mover, p, d),
        d == 8 ==> k == 0,
    ensures
        discs(partly_turned(g, mover, p, d, k), mover) == discs(g, mover) + flips_below(
            g,
            mover,
            p,
            d,
        ) + k,
        discs(partly_turned(g, mover, p, d, k), mover.other()) == discs(g, mover.other())
            - flips_below(g, mover, p, d) - k,
    decreases d, k,
{
    if k > 0 {
        lemma_partly_turned_counts(g, mover, p, d, k - 1);
        lemma_partly_turned_step(g, mover, p, d, k - 1);
        let before = partly_turned(g, mover, p, d, k - 1);
        let after = partly_turned(g, mover, p, d, k);
        let t = ray(p, d, k);
        assert forall|q: (int, int)| on_board(q) && q != t implies #[trigger] at(after, q) == at(
            before,
            q,
        ) by {}
        lemma_discs_change(before, after, t, mover);
        lemma_discs_change(before, after, t, mover.other());
    } else if d > 0 {
        lemma_capture_len(g, mover, p, d - 1);
        lemma_partly_turned_counts(g, mover, p, d - 1, capture_len(g, mover, p, d - 1));
        lemma_partly_turned_next(g, mover, p, d - 1);
    } else {
        lemma_partly_turned_start(g, mover, p);
    }
}

/// A move captures no fewer than zero discs and no more than seven in each
/// direction.
pub proof fn lemma_flips_bounds(g: Grid, mover: Player, p: (int, int), d: int)
    requires
        on_board(p),
        0 <= d <= 8,
    ensures
        0 <= flips_below(g, mover, p, d) <= 7 * d,
    decreases d,
{
    if d > 0 {
        lemma_flips_bounds(g, mover, p, d - 1);
        lemma_capture_len(g, mover, p, d - 1);
        let n = capture_len(g, mover, p, d - 1);
        if n > 7 {
            assert(holds(g, ray(p, d - 1, 8), mover.other()));
        }
    }
}

/// Turning the captured discs moves as many discs from the opponent's side
/// to the mover's as the move captures.
pub proof fn lemma_turned_counts(g: Grid, mover: Player, p: (int, int))
    requires
        grid_wf(g),
    ensures
        discs(turned(g, mover, p), mover) == discs(g, mover) + flips(g, mover, p),
        discs(turned(g, mover, p), mover.other()) == discs(g, mover.other()) - flips(g, mover, p),
{
    lemma_partly_turned_counts(g, mover, p, 8, 0);
    lemma_partly_turned_end(g, mover, p);
}

/// A move is the placing of the disc followed by the turning of what it
/// captures, and it captures what it would have captured on the grid
/// before the disc was placed.
pub proof fn lemma_after_move_in_steps(g: Grid, mover: Player, p: (int, int))
    requires
        grid_wf(g),
        on_board(p),
    ensures
        after_move(g, mover, p) == turned(put(g, p, Cell::Occupied(mover)), mover, p),
        flips(put(g, p, Cell::Occupied(mover)), mover, p) == flips(g, mover, p),
{
    let h = put(g, p, Cell::Occupied(mover));
    lemma_same_captures(g, h, mover, p, 8);
    assert forall|q: (int, int)| flipped(h, mover, p, q) == flipped(g, mover, p, q) by {
        if flipped(h, mover, p, q) {
            let (d, k) = choose|d: int, k: int|
                0 <= d < 8 && 1 <= k <= capture_len(h, mover, p, d) && q == #[trigger] ray(p, d, k);
            assert(q == ray(p, d, k));
        }
        if flipped(g, mover, p, q) {
            let (d, k) = choose|d: int, k: int|
                0 <= d < 8 && 1 <= k <= capture_len(g, mover, p, d) && q == #[trigger] ray(p, d, k);
            assert(q == ray(p, d, k));
        }
    }
    assert(!flipped(h, mover, p, p)) by {
        if flipped(h, mover, p, p) {
            let (d, k) = choose|d: int, k: int|
                0 <= d < 8 && 1 <= k <= capture_len(h, mover, p, d) && p == #[trigger] ray(p, d, k);
            lemma_rays_apart(p, d, k, d, k);
        }
    }
    assert(after_move(g, mover, p) =~~= turned(h, mover, p));
}

/// Two grids that agree everywhere but at `p` give a disc at `p` the same
/// captures in every direction.
proof fn lemma_same_captures(g: Grid, h: Grid, mover: Player, p: (int, int), d: int)
    requires
        0 <= d <= 8,
        forall|q: (int, int)| on_board(q) && q != p ==> #[trigger] at(h, q) == at(g, q),
    ensures
        forall|e: int| 0 <= e < d ==> capture_len(h, mover, p, e) == capture_len(g, mover, p, e),
        flips_below(h, mover, p, d) == flips_below(g, mover, p, d),
    decreases d,
{
    if d > 0 {
        lemma_same_captures(g, h, mover, p, d - 1);
        lemma_capture_ignores_origin(g, h, mover, p, d - 1);
    }
}

/// A move on an empty cell adds to the mover's discs the placed disc and
/// the captured ones, and takes the captured ones from the opponent's.
pub proof fn lemma_after_move_counts(g: Grid, mover: Player, p: (int, int))
    requires
        grid_wf(g),
        vacant(g, p),
    ensures
        discs(after_move(g, mover, p), mover) == discs(g, mover) + 1 + flips(g, mover, p),
        discs(after_move(g, mover, p), mover.other()) == discs(g, mover.other()) - flips(
            g,
            mover,
            p,
        ),
        0 <= flips(g, mover, p) <= 56,
{
    let h = put(g, p, Cell::Occupied(mover));
    lemma_after_move_in_steps(g, mover, p);
    lemma_turned_counts(h, mover, p);
    lemma_discs_change(g, h, p, mover);
    lemma_discs_change(g, h, p, mover.other());
    lemma_flips_bounds(g, mover, p, 8);
}

/// A move that captures in some direction captures at least one disc.
pub proof fn lemma_at_least_one_flip(g: Grid, mover: Player, p: (int, int), d: int)
    requires
        on_board(p),
        0 <= d < 8,
        captures(g, mover, p, d),
    ensures
        flips(g, mover, p) >= 1,
{
    lemma_capture_len(g, mover, p, d);
    lemma_flips_grow(g, mover, p, d + 1, 8);
    lemma_flips_bounds(g, mover, p, d);
}

/// The directions up to `e` capture no fewer discs than those up to `d`.
proof fn lemma_flips_grow(g: Grid, mover: Player, p: (int, int), d: int, e: int)
    requires
        0 <= d <= e,
    ensures
        flips_below(g, mover, p, d) <= flips_below(g, mover, p, e),
    decreases e - d,
{
    if d < e {
        lemma_flips_grow(g, mover, p, d, e - 1);
        lemma_capture_len(g, mover, p, e - 1);
    }
}

} // verus!
