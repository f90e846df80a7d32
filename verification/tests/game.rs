use rothello::board::{Board, Cell, Player};
use rothello::engine::App;
use rothello::record::{IllegalMove, MoveRecord, Score, ScoreDelta};
use rothello::key::Key;

const DARK: Cell = Cell::Occupied(Player::Dark);
const LIGHT: Cell = Cell::Occupied(Player::Light);

/// A game of eight moves after which Dark, who is to move, has no legal move.
const SHORT_GAME: [(usize, usize); 8] =
    [(4, 2), (5, 2), (3, 5), (4, 1), (4, 0), (3, 0), (6, 2), (5, 0)];

fn recount(b: &Board) -> (i8, i8) {
    let mut dark = 0;
    let mut light = 0;
    for r in 0..8 {
        for c in 0..8 {
            match b.get((r, c)) {
                Cell::Occupied(Player::Dark) => dark += 1,
                Cell::Occupied(Player::Light) => light += 1,
                Cell::Empty => {}
            }
        }
    }
    (dark, light)
}

fn cells(b: &Board) -> Vec<Cell> {
    let mut all = Vec::new();
    for r in 0..8 {
        for c in 0..8 {
            all.push(b.get((r, c)));
        }
    }
    all
}

fn after_short_game() -> App {
    let mut app = App::default();
    for cell in SHORT_GAME {
        assert!(app.attempt_move(cell).is_ok());
    }
    app
}

#[test]
fn a_new_game_is_the_opening_position() {
    let app = App::default();
    assert_eq!(cells(app.board()), cells(&Board::starting()));
    assert_eq!(app.player(), Player::Dark);
    assert_eq!(app.score(), Score { dark: 2, light: 2 });
    assert_eq!(app.cursor(), (0, 0));
    assert_eq!(app.scroll(), 0);
    assert!(app.log().is_empty());
    assert!(!app.exit_requested());
}

#[test]
fn a_new_game_offers_exactly_four_moves() {
    let app = App::default();
    assert_eq!(app.moves().len(), 4);
    assert_eq!(app.moves(), &vec![(3, 5), (5, 3), (4, 2), (2, 4)]);
    assert_eq!(app.get_moves(), vec![(3, 5), (5, 3), (4, 2), (2, 4)]);
}

#[test]
fn dark_at_2_4_turns_3_4_and_leads_four_to_one() {
    let mut app = App::default();
    let before = cells(app.board());
    let res = app.attempt_move((2, 4));
    assert_eq!(res, Ok(ScoreDelta { dark: 2, light: -1 }));
    assert_eq!(app.board().get((2, 4)), DARK);
    assert_eq!(app.board().get((3, 4)), DARK);
    let after = cells(app.board());
    for i in 0..64 {
        if i != 2 * 8 + 4 && i != 3 * 8 + 4 {
            assert_eq!(after[i], before[i]);
        }
    }
    assert_eq!(app.score(), Score { dark: 4, light: 1 });
}

#[test]
fn a_move_passes_the_turn_and_renews_the_legal_moves() {
    let mut app = App::default();
    let old_moves = app.moves().clone();
    assert!(app.attempt_move((2, 4)).is_ok());
    assert_eq!(app.player(), Player::Light);
    assert_eq!(app.moves(), &vec![(4, 5), (2, 3), (2, 5)]);
    assert_ne!(app.moves(), &old_moves);
    assert_eq!(app.moves(), &app.get_moves());
    assert_eq!(app.moves(), &app.board().legal_moves(Player::Light));
    assert!(app.attempt_move((2, 3)).is_ok());
    assert_eq!(app.player(), Player::Dark);
    assert_eq!(app.score(), Score { dark: 3, light: 3 });
    assert_eq!(app.moves(), &vec![(2, 2), (4, 2), (3, 2), (5, 2), (1, 2)]);
}

#[test]
fn a_rejected_attempt_changes_nothing_however_often_it_is_made() {
    let mut app = App::default();
    let board = cells(app.board());
    let moves = app.moves().clone();
    for _ in 0..2 {
        assert_eq!(app.attempt_move((0, 0)), Err(IllegalMove));
        assert_eq!(cells(app.board()), board);
        assert_eq!(app.score(), Score { dark: 2, light: 2 });
        assert_eq!(app.player(), Player::Dark);
        assert!(app.log().is_empty());
        assert_eq!(app.moves(), &moves);
    }
}

#[test]
fn an_occupied_cell_is_no_legal_move() {
    let mut app = App::default();
    assert_eq!(app.attempt_move((3, 3)), Err(IllegalMove));
    assert_eq!(app.attempt_move((3, 4)), Err(IllegalMove));
    assert_eq!(app.score(), Score { dark: 2, light: 2 });
}

#[test]
fn an_empty_cell_that_captures_nothing_is_no_legal_move() {
    let mut app = App::default();
    assert_eq!(app.attempt_move((2, 3)), Err(IllegalMove));
    assert_eq!(app.attempt_move((5, 5)), Err(IllegalMove));
    assert_eq!(app.player(), Player::Dark);
}

#[test]
fn a_cell_off_the_board_is_no_legal_move() {
    let mut app = App::default();
    assert_eq!(app.attempt_move((8, 0)), Err(IllegalMove));
    assert_eq!(app.attempt_move((2, 8)), Err(IllegalMove));
    assert_eq!(app.attempt_move((usize::MAX, usize::MAX)), Err(IllegalMove));
    assert_eq!(app.player(), Player::Dark);
}

#[test]
fn the_score_is_the_recount_of_the_board_after_every_move() {
    let mut app = App::default();
    let expected: [(i8, i8); 8] =
        [(4, 1), (3, 3), (5, 2), (4, 4), (8, 1), (7, 3), (9, 2), (8, 4)];
    for (i, cell) in SHORT_GAME.iter().enumerate() {
        let before = app.score();
        let delta = app.attempt_move(*cell).unwrap();
        let score = app.score();
        assert_eq!((score.dark, score.light), expected[i]);
        assert_eq!((score.dark, score.light), recount(app.board()));
        assert_eq!(delta.dark, score.dark - before.dark);
        assert_eq!(delta.light, score.light - before.light);
        assert_eq!(
            (score.dark + score.light) as usize,
            cells(app.board()).iter().filter(|c| **c != Cell::Empty).count()
        );
        assert_eq!(app.log().len(), i + 1);
    }
}

#[test]
fn a_move_that_captures_three() {
    let mut app = App::default();
    for cell in &SHORT_GAME[..4] {
        assert!(app.attempt_move(*cell).is_ok());
    }
    assert_eq!(app.attempt_move((4, 0)), Ok(ScoreDelta { dark: 4, light: -3 }));
    assert_eq!(app.score(), Score { dark: 8, light: 1 });
}

#[test]
fn every_listed_move_is_on_an_empty_cell_and_captures() {
    let mut app = App::default();
    for cell in SHORT_GAME {
        for m in app.moves().clone() {
            assert_eq!(app.board().get(m), Cell::Empty);
            let mut trial = *app.board();
            trial.set(m, Cell::Occupied(app.player()));
            assert!(trial.capture(app.player(), m) >= 1);
        }
        assert!(app.attempt_move(cell).is_ok());
    }
}

#[test]
fn every_empty_cell_that_captures_is_listed() {
    let mut app = App::default();
    for cell in SHORT_GAME {
        for r in 0..8 {
            for c in 0..8 {
                let mut trial = *app.board();
                let captures = trial.capture(app.player(), (r, c)) >= 1;
                let legal = app.board().get((r, c)) == Cell::Empty && captures;
                assert_eq!(app.moves().contains(&(r, c)), legal);
            }
        }
        assert!(app.attempt_move(cell).is_ok());
    }
}

#[test]
fn the_legal_moves_along_a_game() {
    let mut app = App::default();
    let expected: [Vec<(usize, usize)>; 8] = [
        vec![(5, 4), (3, 2), (5, 2)],
        vec![(3, 5), (5, 3), (6, 2), (2, 4)],
        vec![(4, 5), (4, 1), (2, 3), (2, 5), (3, 2)],
        vec![(5, 3), (5, 1), (6, 1), (4, 0)],
        vec![(3, 2), (2, 5), (3, 0)],
        vec![(2, 0), (6, 2), (6, 1)],
        vec![(5, 0), (4, 5), (6, 3)],
        vec![],
    ];
    for (i, cell) in SHORT_GAME.iter().enumerate() {
        assert!(app.attempt_move(*cell).is_ok());
        assert_eq!(app.moves(), &expected[i]);
    }
}

#[test]
fn without_legal_moves_every_attempt_fails() {
    let mut app = after_short_game();
    assert_eq!(app.player(), Player::Dark);
    assert!(app.moves().is_empty());
    assert!(app.get_moves().is_empty());
    let board = cells(app.board());
    for r in 0..8 {
        for c in 0..8 {
            assert_eq!(app.attempt_move((r, c)), Err(IllegalMove));
        }
    }
    assert_eq!(cells(app.board()), board);
    assert_eq!(app.score(), Score { dark: 8, light: 4 });
    assert_eq!(app.player(), Player::Dark);
    assert_eq!(app.log().len(), 8);
}

#[test]
fn the_board_after_the_short_game() {
    let app = after_short_game();
    let rows = [
        "........",
        "........",
        "........",
        "L..DDD..",
        "LLDDD...",
        "L.D.....",
        "..D.....",
        "........",
    ];
    for (r, row) in rows.iter().enumerate() {
        for (c, ch) in row.chars().enumerate() {
            let want = match ch {
                'D' => DARK,
                'L' => LIGHT,
                _ => Cell::Empty,
            };
            assert_eq!(app.board().get((r, c)), want);
        }
    }
}

#[test]
fn the_log_keeps_one_record_for_each_move_in_order() {
    let mut app = App::default();
    assert!(app.attempt_move((2, 4)).is_ok());
    assert_eq!(app.attempt_move((0, 0)), Err(IllegalMove));
    assert!(app.attempt_move((2, 3)).is_ok());
    assert_eq!(
        app.log(),
        &vec![
            MoveRecord {
                player: Player::Dark,
                cell: (2, 4),
                delta: ScoreDelta { dark: 2, light: -1 },
            },
            MoveRecord {
                player: Player::Light,
                cell: (2, 3),
                delta: ScoreDelta { dark: -1, light: 2 },
            },
        ]
    );
}

#[test]
fn the_cursor_wraps_at_each_edge() {
    let mut app = App::default();
    app.move_left();
    assert_eq!(app.cursor(), (7, 0));
    app.move_right();
    assert_eq!(app.cursor(), (0, 0));
    app.move_down();
    assert_eq!(app.cursor(), (0, 7));
    app.move_up();
    assert_eq!(app.cursor(), (0, 0));
    for i in 1..8 {
        app.move_right();
        assert_eq!(app.cursor(), (i, 0));
    }
    app.move_right();
    assert_eq!(app.cursor(), (0, 0));
    for i in 1..8 {
        app.move_up();
        assert_eq!(app.cursor(), (0, i));
    }
    app.move_up();
    assert_eq!(app.cursor(), (0, 0));
}

#[test]
fn the_cursor_does_not_touch_the_game() {
    let mut app = App::default();
    let board = cells(app.board());
    app.move_right();
    app.move_up();
    app.move_left();
    app.move_down();
    assert_eq!(cells(app.board()), board);
    assert_eq!(app.moves(), &vec![(3, 5), (5, 3), (4, 2), (2, 4)]);
    assert_eq!(app.player(), Player::Dark);
}

#[test]
fn play_moves_at_the_cursor() {
    let mut app = App::default();
    app.move_right();
    app.move_right();
    for _ in 0..4 {
        app.move_up();
    }
    assert_eq!(app.cursor(), (2, 4));
    app.play();
    assert_eq!(app.board().get((2, 4)), DARK);
    assert_eq!(app.board().get((3, 4)), DARK);
    assert_eq!(app.score(), Score { dark: 4, light: 1 });
    assert_eq!(app.player(), Player::Light);
    assert_eq!(app.cursor(), (2, 4));
    assert_eq!(app.log().len(), 1);
}

#[test]
fn play_at_a_cell_that_is_not_legal_does_nothing() {
    let mut app = App::default();
    app.play();
    assert_eq!(cells(app.board()), cells(&Board::starting()));
    assert_eq!(app.player(), Player::Dark);
    assert_eq!(app.score(), Score { dark: 2, light: 2 });
    assert!(app.log().is_empty());
}

#[test]
fn the_log_scrolls_down_to_its_end_and_back_to_the_top() {
    let mut app = App::default();
    app.scroll_down();
    assert_eq!(app.scroll(), 0);
    app.scroll_up();
    assert_eq!(app.scroll(), 0);
    assert!(app.attempt_move((2, 4)).is_ok());
    assert!(app.attempt_move((2, 3)).is_ok());
    app.scroll_down();
    assert_eq!(app.scroll(), 1);
    app.scroll_down();
    assert_eq!(app.scroll(), 2);
    app.scroll_up();
    assert_eq!(app.scroll(), 1);
    app.scroll_down();
    app.scroll_down();
    assert_eq!(app.scroll(), 0);
    app.scroll_up();
    assert_eq!(app.scroll(), 0);
}

#[test]
fn exit_asks_for_the_end() {
    let mut app = App::default();
    app.exit();
    assert!(app.exit_requested());
    assert_eq!(app.score(), Score { dark: 2, light: 2 });
}

#[test]
fn keys_are_dispatched() {
    let mut app = App::default();
    app.handle_key_event(Key::Right);
    assert_eq!(app.cursor(), (1, 0));
    app.handle_key_event(Key::Up);
    assert_eq!(app.cursor(), (1, 1));
    app.handle_key_event(Key::Left);
    assert_eq!(app.cursor(), (0, 1));
    app.handle_key_event(Key::Down);
    assert_eq!(app.cursor(), (0, 0));
    app.handle_key_event(Key::Enter);
    assert!(app.log().is_empty());
    app.handle_key_event(Key::Right);
    app.handle_key_event(Key::Right);
    for _ in 0..4 {
        app.handle_key_event(Key::Up);
    }
    app.handle_key_event(Key::Enter);
    assert_eq!(app.log().len(), 1);
    assert_eq!(app.score(), Score { dark: 4, light: 1 });
    app.handle_key_event(Key::Char('s'));
    assert_eq!(app.scroll(), 1);
    app.handle_key_event(Key::Char('w'));
    assert_eq!(app.scroll(), 0);
    app.handle_key_event(Key::Char('x'));
    app.handle_key_event(Key::Other);
    assert_eq!(app.cursor(), (2, 4));
    assert_eq!(app.scroll(), 0);
    assert!(!app.exit_requested());
    app.handle_key_event(Key::Char('q'));
    assert!(app.exit_requested());
}

#[test]
fn a_game_stays_consistent() {
    let mut app = App::default();
    assert!(app.is_consistent());
    for cell in SHORT_GAME {
        assert_eq!(app.attempt_move((7, 7)), Err(IllegalMove));
        assert!(app.is_consistent());
        app.move_left();
        app.scroll_down();
        assert!(app.attempt_move(cell).is_ok());
        assert!(app.is_consistent());
        assert_eq!(app.score().dark as usize, app.board().count(Player::Dark));
        assert_eq!(app.score().light as usize, app.board().count(Player::Light));
    }
    app.exit();
    assert!(app.is_consistent());
}
