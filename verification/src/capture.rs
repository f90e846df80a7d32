//! Walking along a ray of the board and turning the discs that a placed
//! disc captures.

use crate::board::{at, grid_wf, holds, on_board, pos, ray, Board, Cell, Grid, Player};
use crate::rules::{
    brackets, capture_len, captures, flipped_before, flips, flips_below, lemma_capture_len,
    lemma_partly_turned_end, lemma_partly_turned_next, lemma_partly_turned_start,
    lemma_partly_turned_step, lemma_rays_apart, partly_turned, run, turned,
};
use vstd::prelude::*;

verus! {

/// The change of row and column that one step in direction `d` makes.
pub fn offset(d: usize) -> (v: (i8, i8))
    requires
        d < 8,
    ensures
        (v.0 as int, v.1 as int) == ray((0, 0), d as int, 1),
{
    if d == 0 {
        (0, 1)
    } else if d == 1 {
        (1, 0)
    } else if d == 2 {
        (0, -1)
    } else if d == 3 {
        (-1, 0)
    } else if d == 4 {
        (-1, 1)
    } else if d == 5 {
        (1, -1)
    } else if d == 6 {
        (1, 1)
    } else {
        (-1, -1)
    }
}

/// The neighbour of `p` in direction `d`, or `None` where the step leaves
/// the board.
pub fn step(p: (usize, usize), d: usize) -> (q: Option<(usize, usize)>)
    requires
        on_board(pos(p)),
        d < 8,
    ensures
        q is Some <==> on_board(ray(pos(p), d as int, 1)),
        q matches Some(t) ==> pos(t) == ray(pos(p), d as int, 1),
{
    let v = offset(d);
    let r: i8 = p.0 as i8 + v.0;
    let c: i8 = p.1 as i8 + v.1;
    if r < 0 || c < 0 || r > 7 || c > 7 {
        None
    } else {
        Some((r as usize, c as usize))
    }
}

/// A walk that crossed `n` discs of the opponent and stopped on anything
/// else decides what a disc of `mover` at `p` captures in direction `d`:
/// the `n` discs where `n >= 1` and the walk stopped on a disc of `mover`,
/// and nothing otherwise. The walk may have been made on a grid `h` that
/// agrees with `g` along the ray.
pub proof fn lemma_walk_decides(g: Grid, h: Grid, mover: Player, p: (int, int), d: int, n: int)
    requires
        0 <= d < 8,
        0 <= n,
        run(h, mover.other(), p, d, n),
        !holds(h, ray(p, d, n + 1), mover.other()),
        forall|j: int|
            1 <= j && on_board(ray(p, d, j)) ==> at(h, #[trigger] ray(p, d, j)) == at(
                g,
                ray(p, d, j),
            ),
    ensures
        run(g, mover.other(), p, d, n),
        captures(g, mover, p, d) <==> n >= 1 && holds(h, ray(p, d, n + 1), mover),
        capture_len(g, mover, p, d) == if n >= 1 && holds(h, ray(p, d, n + 1), mover) {
            n
        } else {
            0
        },
{
    assert forall|k: int| 1 <= k <= n implies #[trigger] holds(g, ray(p, d, k), mover.other()) by {
        assert(holds(h, ray(p, d, k), mover.other()));
    }
    lemma_capture_len(g, mover, p, d);
    if n >= 1 && holds(h, ray(p, d, n + 1), mover) {
        assert(brackets(g, mover, p, d, n));
    } else if captures(g, mover, p, d) {
        let m = capture_len(g, mover, p, d);
        assert(brackets(g, mover, p, d, m));
        if m < n {
            assert(holds(h, ray(p, d, m + 1), mover.other()));
        } else if m > n {
            assert(holds(g, ray(p, d, n + 1), mover.other()));
        }
    }
}

impl Board {
    /// Walks from `p` in direction `d` for as long as the next cell holds a
    /// disc of `who`. Returns how many such discs it crossed and the cell it
    /// stopped on, which is `None` where the walk ran off the board.
    pub fn walk(&self, who: Player, p: (usize, usize), d: usize) -> (res: (
        usize,
        Option<(usize, usize)>,
    ))
        requires
            on_board(pos(p)),
            d < 8,
        ensures
            res.0 <= 7,
            run(self@, who, pos(p), d as int, res.0 as int),
            !holds(self@, ray(pos(p), d as int, res.0 + 1), who),
            res.1 is Some <==> on_board(ray(pos(p), d as int, res.0 + 1)),
            res.1 matches Some(e) ==> pos(e) == ray(pos(p), d as int, res.0 + 1),
    {
        let mut n: usize = 0;
        let mut cur = p;
        loop
            invariant
                on_board(pos(p)),
                d < 8,
                n <= 7,
                pos(cur) == ray(pos(p), d as int, n as int),
                on_board(pos(cur)),
                run(self@, who, pos(p), d as int, n as int),
            decreases 8 - n,
        {
            match step(cur, d) {
                None => {
                    return (n, None);
                },
                Some(next) => {
                    if self.get(next) == Cell::Occupied(who) {
                        n = n + 1;
                        cur = next;
                    } else {
                        return (n, Some(next));
                    }
                },
            }
        }
    }

    /// Turns every disc that a disc of `mover` at `p` captures to `mover`'s
    /// side, direction by direction, and returns how many discs were turned.
    /// The cell `p` itself is not touched.
    pub fn capture(&mut self, mover: Player, p: (usize, usize)) -> (n: usize)
        requires
            on_board(pos(p)),
        ensures
            final(self)@ == turned(old(self)@, mover, pos(p)),
            n == flips(old(self)@, mover, pos(p)),
            n <= 56,
    {
        let ghost g = self@;
        let mut total: usize = 0;
        let mut d: usize = 0;
        proof {
            self.lemma_view_wf();
            lemma_partly_turned_start(g, mover, pos(p));
        }
        while d < 8
            invariant
                d <= 8,
                on_board(pos(p)),
                grid_wf(g),
                total == flips_below(g, mover, pos(p), d as int),
                total <= 7 * d,
                self@ == partly_turned(g, mover, pos(p), d as int, 0),
            decreases 8 - d,
        {
            let (len, end) = self.walk(mover.opponent(), p, d);
            let closed = match end {
                Some(e) => self.get(e) == Cell::Occupied(mover),
                None => false,
            };
            proof {
                assert forall|j: int| 1 <= j && on_board(ray(pos(p), d as int, j)) implies at(
                    self@,
                    #[trigger] ray(pos(p), d as int, j),
                ) == at(g, ray(pos(p), d as int, j)) by {
                    lemma_untouched_ray(g, mover, pos(p), d as int, j);
                }
                lemma_walk_decides(g, self@, mover, pos(p), d as int, len as int);
            }
            if closed && len > 0 {
                let mut cur = p;
                let mut k: usize = 0;
                while k < len
                    invariant
                        d < 8,
                        k <= len,
                        len == capture_len(g, mover, pos(p), d as int),
                        on_board(pos(p)),
                        on_board(pos(cur)),
                        grid_wf(g),
                        pos(cur) == ray(pos(p), d as int, k as int),
                        self@ == partly_turned(g, mover, pos(p), d as int, k as int),
                    decreases len - k,
                {
                    proof {
                        lemma_partly_turned_step(g, mover, pos(p), d as int, k as int);
                    }
                    let next = step(cur, d).unwrap();
                    self.set(next, Cell::Occupied(mover));
                    cur = next;
                    k = k + 1;
                }
                total = total + len;
            }
            proof {
                lemma_partly_turned_next(g, mover, pos(p), d as int);
            }
            d = d + 1;
        }
        proof {
            lemma_partly_turned_end(g, mover, pos(p));
        }
        total
    }
}

/// While the runs of the directions below `d` are turned, the cells along
/// the ray of direction `d` are as they were.
proof fn lemma_untouched_ray(g: Grid, mover: Player, p: (int, int), d: int, j: int)
    requires
        grid_wf(g),
        0 <= d < 8,
        1 <= j,
        on_board(ray(p, d, j)),
    ensures
        at(partly_turned(g, mover, p, d, 0), ray(p, d, j)) == at(g, ray(p, d, j)),
{
    let t = ray(p, d, j);
    if flipped_before(g, mover, p, t, d, 0) {
        let (e, i) = choose|e: int, i: int|
            0 <= e < 8 && 1 <= i <= capture_len(g, mover, p, e) && (e < d || (e == d && i <= 0))
                && t == #[trigger] ray(p, e, i);
        lemma_rays_apart(p, d, j, e, i);
    }
}

} // verus!
