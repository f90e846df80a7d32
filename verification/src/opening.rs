//! The opening position: what the scan finds there for either side.

use crate::board::{holds, nth_cell, opening, ray, Grid, Player};
use crate::moves::{legal_cells, lemma_cell_skipped, lemma_scan_step, scan};
use vstd::prelude::*;

verus! {

/// The walks that start on cells without a disc of `mover` add nothing:
/// from walk `8 * a` to walk `8 * b` the list stays as it is where none of
/// the cells numbered `a` to `b - 1` holds such a disc.
pub proof fn lemma_scan_skips(g: Grid, mover: Player, a: int, b: int)
    requires
        0 <= a <= b,
        forall|c: int| a <= c < b ==> !holds(g, #[trigger] nth_cell(c), mover),
    ensures
        scan(g, mover, 8 * b) == scan(g, mover, 8 * a),
    decreases b - a,
{
    if a < b {
        lemma_scan_skips(g, mover, a, b - 1);
        assert(!holds(g, nth_cell(b - 1), mover));
        lemma_cell_skipped(g, mover, b - 1, 8);
    }
}

/// At the opening Dark has exactly four legal moves, and the scan finds
/// them in this order.
pub proof fn lemma_opening_moves_of_dark()
    ensures
        legal_cells(opening(), Player::Dark) == seq![
            (3int, 5int),
            (5int, 3int),
            (4int, 2int),
            (2int, 4int),
        ],
        legal_cells(opening(), Player::Dark).len() == 4,
{
    let g = opening();
    let m = Player::Dark;
    let found0: Seq<(int, int)> = Seq::empty();
    let found1 = seq![(3int, 5int)];
    let found2 = seq![(3int, 5int), (5int, 3int)];
    let found3 = seq![(3int, 5int), (5int, 3int), (4int, 2int)];
    let found4 = seq![(3int, 5int), (5int, 3int), (4int, 2int), (2int, 4int)];
    assert(scan(g, m, 0) =~= found0);
    lemma_scan_skips(g, m, 0, 27);
    assert(nth_cell(27) == (3int, 3int));
    // the disc at (3, 3)
    assert(holds(g, ray((3, 3), 0, 1), m.other()));
    lemma_scan_step(g, m, 216, 1);
    assert(scan(g, m, 217) =~= found1);
    assert(holds(g, ray((3, 3), 1, 1), m.other()));
    lemma_scan_step(g, m, 217, 1);
    assert(scan(g, m, 218) =~= found2);
    lemma_scan_step(g, m, 218, 0);
    lemma_scan_step(g, m, 219, 0);
    lemma_scan_step(g, m, 220, 0);
    lemma_scan_step(g, m, 221, 0);
    lemma_scan_step(g, m, 222, 0);
    lemma_scan_step(g, m, 223, 0);
    assert(scan(g, m, 224) == found2);
    lemma_scan_skips(g, m, 28, 36);
    assert(nth_cell(36) == (4int, 4int));
    // the disc at (4, 4)
    lemma_scan_step(g, m, 288, 0);
    lemma_scan_step(g, m, 289, 0);
    assert(holds(g, ray((4, 4), 2, 1), m.other()));
    lemma_scan_step(g, m, 290, 1);
    assert(scan(g, m, 291) =~= found3);
    assert(holds(g, ray((4, 4), 3, 1), m.other()));
    lemma_scan_step(g, m, 291, 1);
    assert(scan(g, m, 292) =~= found4);
    lemma_scan_step(g, m, 292, 0);
    lemma_scan_step(g, m, 293, 0);
    lemma_scan_step(g, m, 294, 0);
    lemma_scan_step(g, m, 295, 0);
    assert(scan(g, m, 296) == found4);
    lemma_scan_skips(g, m, 37, 64);
}

/// At the opening Light would have exactly four legal moves too, and the
/// scan would find them in this order.
pub proof fn lemma_opening_moves_of_light()
    ensures
        legal_cells(opening(), Player::Light) == seq![
            (5int, 4int),
            (3int, 2int),
            (4int, 5int),
            (2int, 3int),
        ],
        legal_cells(opening(), Player::Light).len() == 4,
{
    let g = opening();
    let m = Player::Light;
    let found0: Seq<(int, int)> = Seq::empty();
    let found1 = seq![(5int, 4int)];
    let found2 = seq![(5int, 4int), (3int, 2int)];
    let found3 = seq![(5int, 4int), (3int, 2int), (4int, 5int)];
    let found4 = seq![(5int, 4int), (3int, 2int), (4int, 5int), (2int, 3int)];
    assert(scan(g, m, 0) =~= found0);
    lemma_scan_skips(g, m, 0, 28);
    assert(nth_cell(28) == (3int, 4int));
    // the disc at (3, 4)
    lemma_scan_step(g, m, 224, 0);
    assert(holds(g, ray((3, 4), 1, 1), m.other()));
    lemma_scan_step(g, m, 225, 1);
    assert(scan(g, m, 226) =~= found1);
    assert(holds(g, ray((3, 4), 2, 1), m.other()));
    lemma_scan_step(g, m, 226, 1);
    assert(scan(g, m, 227) =~= found2);
    lemma_scan_step(g, m, 227, 0);
    lemma_scan_step(g, m, 228, 0);
    lemma_scan_step(g, m, 229, 0);
    lemma_scan_step(g, m, 230, 0);
    lemma_scan_step(g, m, 231, 0);
    assert(scan(g, m, 232) == found2);
    lemma_scan_skips(g, m, 29, 35);
    assert(nth_cell(35) == (4int, 3int));
    // the disc at (4, 3)
    assert(holds(g, ray((4, 3), 0, 1), m.other()));
    lemma_scan_step(g, m, 280, 1);
    assert(scan(g, m, 281) =~= found3);
    lemma_scan_step(g, m, 281, 0);
    lemma_scan_step(g, m, 282, 0);
    assert(holds(g, ray((4, 3), 3, 1), m.other()));
    lemma_scan_step(g, m, 283, 1);
    assert(scan(g, m, 284) =~= found4);
    lemma_scan_step(g, m, 284, 0);
    lemma_scan_step(g, m, 285, 0);
    lemma_scan_step(g, m, 286, 0);
    lemma_scan_step(g, m, 287, 0);
    assert(scan(g, m, 288) == found4);
    lemma_scan_skips(g, m, 36, 64);
}

} // verus!
