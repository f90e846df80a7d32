use rothello::board::{Board, Cell, Player};
use rothello::capture::{offset, step};
use rothello::moves::listed;

const DARK: Cell = Cell::Occupied(Player::Dark);
const LIGHT: Cell = Cell::Occupied(Player::Light);

fn board_with(dark: &[(usize, usize)], light: &[(usize, usize)]) -> Board {
    let mut b = Board::empty();
    for p in dark {
        b.set(*p, DARK);
    }
    for p in light {
        b.set(*p, LIGHT);
    }
    b
}

fn count(b: &Board, v: Cell) -> usize {
    let mut n = 0;
    for r in 0..8 {
        for c in 0..8 {
            if b.get((r, c)) == v {
                n += 1;
            }
        }
    }
    n
}

#[test]
fn opponent_is_the_other_side() {
    assert_eq!(Player::Dark.opponent(), Player::Light);
    assert_eq!(Player::Light.opponent(), Player::Dark);
}

#[test]
fn empty_board_has_no_discs() {
    let b = Board::empty();
    assert_eq!(count(&b, Cell::Empty), 64);
}

#[test]
fn starting_board_has_two_diagonal_pairs() {
    let b = Board::starting();
    assert_eq!(b.get((3, 3)), DARK);
    assert_eq!(b.get((4, 4)), DARK);
    assert_eq!(b.get((3, 4)), LIGHT);
    assert_eq!(b.get((4, 3)), LIGHT);
    assert_eq!(count(&b, DARK), 2);
    assert_eq!(count(&b, LIGHT), 2);
    assert_eq!(count(&b, Cell::Empty), 60);
}

#[test]
fn set_changes_one_cell_only() {
    let mut b = Board::starting();
    b.set((0, 7), LIGHT);
    assert_eq!(b.get((0, 7)), LIGHT);
    assert_eq!(count(&b, LIGHT), 3);
    assert_eq!(count(&b, DARK), 2);
    b.set((0, 7), Cell::Empty);
    assert_eq!(count(&b, Cell::Empty), 60);
}

#[test]
fn offsets_are_the_eight_neighbours() {
    let all: Vec<(i8, i8)> = (0..8).map(offset).collect();
    assert_eq!(
        all,
        vec![(0, 1), (1, 0), (0, -1), (-1, 0), (-1, 1), (1, -1), (1, 1), (-1, -1)]
    );
}

#[test]
fn step_stays_on_the_board() {
    assert_eq!(step((3, 3), 0), Some((3, 4)));
    assert_eq!(step((3, 3), 1), Some((4, 3)));
    assert_eq!(step((3, 3), 2), Some((3, 2)));
    assert_eq!(step((3, 3), 3), Some((2, 3)));
    assert_eq!(step((3, 3), 4), Some((2, 4)));
    assert_eq!(step((3, 3), 5), Some((4, 2)));
    assert_eq!(step((3, 3), 6), Some((4, 4)));
    assert_eq!(step((3, 3), 7), Some((2, 2)));
    assert_eq!(step((2, 7), 0), None);
    assert_eq!(step((7, 2), 1), None);
    assert_eq!(step((2, 0), 2), None);
    assert_eq!(step((0, 2), 3), None);
    assert_eq!(step((0, 0), 7), None);
    assert_eq!(step((7, 7), 6), None);
    assert_eq!(step((0, 7), 4), None);
    assert_eq!(step((7, 0), 5), None);
}

#[test]
fn walk_counts_the_run_and_names_where_it_stopped() {
    let b = board_with(&[(3, 6)], &[(3, 4), (3, 5), (2, 3), (1, 3), (0, 3)]);
    assert_eq!(b.walk(Player::Light, (3, 3), 0), (2, Some((3, 6))));
    assert_eq!(b.walk(Player::Light, (3, 3), 3), (3, None));
    assert_eq!(b.walk(Player::Light, (3, 3), 1), (0, Some((4, 3))));
    assert_eq!(b.walk(Player::Dark, (3, 5), 0), (1, Some((3, 7))));
    assert_eq!(b.walk(Player::Dark, (7, 7), 6), (0, None));
}

#[test]
fn opening_moves_of_dark_in_scan_order() {
    let moves = Board::starting().legal_moves(Player::Dark);
    assert_eq!(moves, vec![(3, 5), (5, 3), (4, 2), (2, 4)]);
}

#[test]
fn opening_moves_of_light_are_four_too() {
    let moves = Board::starting().legal_moves(Player::Light);
    assert_eq!(moves.len(), 4);
    assert_eq!(moves, vec![(5, 4), (3, 2), (4, 5), (2, 3)]);
}

#[test]
fn a_cell_found_from_two_directions_is_listed_once() {
    let b = board_with(&[(2, 0), (0, 2), (0, 0)], &[(2, 1), (1, 2), (1, 1)]);
    assert_eq!(b.legal_moves(Player::Dark), vec![(2, 2)]);
}

#[test]
fn a_scan_does_not_wrap_round_an_edge() {
    let b = board_with(&[(2, 6)], &[(2, 7)]);
    assert_eq!(b.legal_moves(Player::Dark), Vec::<(usize, usize)>::new());
    assert_eq!(b.legal_moves(Player::Light), vec![(2, 5)]);
    let b = board_with(&[(2, 1)], &[(2, 0)]);
    assert_eq!(b.legal_moves(Player::Dark), Vec::<(usize, usize)>::new());
    let b = board_with(&[(6, 7)], &[(7, 7)]);
    assert_eq!(b.legal_moves(Player::Dark), Vec::<(usize, usize)>::new());
}

#[test]
fn a_board_without_discs_of_the_mover_has_no_moves() {
    let b = board_with(&[], &[(3, 3), (3, 4)]);
    assert!(b.legal_moves(Player::Dark).is_empty());
    assert!(Board::empty().legal_moves(Player::Light).is_empty());
}

#[test]
fn legal_moves_on_a_crowded_board() {
    let b = board_with(
        &[(3, 6), (5, 3), (1, 5), (5, 1)],
        &[(3, 4), (3, 5), (4, 3), (2, 4), (3, 2), (3, 1), (2, 3), (1, 3), (0, 3), (4, 2)],
    );
    assert_eq!(b.legal_moves(Player::Dark), vec![(3, 3), (2, 0)]);
    assert_eq!(
        b.legal_moves(Player::Light),
        vec![(0, 6), (3, 7), (6, 0), (6, 4), (6, 3)]
    );
}

#[test]
fn capture_turns_closed_runs_in_every_direction_and_no_open_one() {
    let before = board_with(
        &[(3, 6), (5, 3), (1, 5), (5, 1)],
        &[(3, 4), (3, 5), (4, 3), (2, 4), (3, 2), (3, 1), (2, 3), (1, 3), (0, 3), (4, 2)],
    );
    let mut b = before;
    b.set((3, 3), DARK);
    let n = b.capture(Player::Dark, (3, 3));
    assert_eq!(n, 5);
    let mut changed = Vec::new();
    for r in 0..8 {
        for c in 0..8 {
            if b.get((r, c)) != before.get((r, c)) {
                assert_eq!(b.get((r, c)), DARK);
                changed.push((r, c));
            }
        }
    }
    assert_eq!(changed, vec![(2, 4), (3, 3), (3, 4), (3, 5), (4, 2), (4, 3)]);
    // the run to the west ends on an empty cell, the run to the north on the edge
    assert_eq!(b.get((3, 2)), LIGHT);
    assert_eq!(b.get((3, 1)), LIGHT);
    assert_eq!(b.get((2, 3)), LIGHT);
    assert_eq!(b.get((1, 3)), LIGHT);
    assert_eq!(b.get((0, 3)), LIGHT);
    assert_eq!(count(&b, DARK), 10);
    assert_eq!(count(&b, LIGHT), 5);
}

#[test]
fn capture_leaves_the_origin_alone() {
    let mut b = board_with(&[(0, 2)], &[(0, 1)]);
    let n = b.capture(Player::Dark, (0, 0));
    assert_eq!(n, 1);
    assert_eq!(b.get((0, 0)), Cell::Empty);
    assert_eq!(b.get((0, 1)), DARK);
}

#[test]
fn capture_without_a_bracket_turns_nothing() {
    let mut b = Board::starting();
    let n = b.capture(Player::Dark, (0, 0));
    assert_eq!(n, 0);
    assert_eq!(count(&b, DARK), 2);
    assert_eq!(count(&b, LIGHT), 2);
    let n = b.capture(Player::Dark, (3, 3));
    assert_eq!(n, 0);
    assert_eq!(b.get((3, 4)), LIGHT);
}

#[test]
fn listed_finds_a_cell_in_a_list() {
    let list = vec![(3, 5), (5, 3)];
    assert!(listed(&list, (5, 3)));
    assert!(!listed(&list, (3, 3)));
    assert!(!listed(&Vec::new(), (0, 0)));
}

#[test]
fn count_recounts_the_discs_of_a_side() {
    assert_eq!(Board::empty().count(Player::Dark), 0);
    assert_eq!(Board::starting().count(Player::Dark), 2);
    assert_eq!(Board::starting().count(Player::Light), 2);
    let mut b = Board::empty();
    for r in 0..8 {
        for c in 0..8 {
            b.set((r, c), LIGHT);
        }
    }
    assert_eq!(b.count(Player::Light), 64);
    assert_eq!(b.count(Player::Dark), 0);
    b.set((7, 7), DARK);
    assert_eq!(b.count(Player::Light), 63);
    assert_eq!(b.count(Player::Dark), 1);
}
