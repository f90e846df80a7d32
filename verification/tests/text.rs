use rothello::board::Player;
use rothello::engine::App;
use rothello::record::{MoveRecord, ScoreDelta};

#[test]
fn the_text_of_the_first_move() {
    let mut app = App::default();
    assert!(app.attempt_move((2, 4)).is_ok());
    assert_eq!(
        app.log()[0].describe(),
        "Black - played at x=2 y= 4 - Points W:-1 || B:2 \n"
    );
}

#[test]
fn the_text_of_a_move_of_light() {
    let mut app = App::default();
    assert!(app.attempt_move((2, 4)).is_ok());
    assert!(app.attempt_move((2, 3)).is_ok());
    assert_eq!(
        app.log()[1].describe(),
        "White - played at x=2 y= 3 - Points W:2 || B:-1 \n"
    );
}

#[test]
fn numbers_of_several_digits_and_zero() {
    let r = MoveRecord {
        player: Player::Light,
        cell: (10, 0),
        delta: ScoreDelta { dark: -12, light: 13 },
    };
    assert_eq!(r.describe(), "White - played at x=10 y= 0 - Points W:13 || B:-12 \n");
    let r = MoveRecord {
        player: Player::Dark,
        cell: (7, 1234567890),
        delta: ScoreDelta { dark: 0, light: 0 },
    };
    assert_eq!(
        r.describe(),
        "Black - played at x=7 y= 1234567890 - Points W:0 || B:0 \n"
    );
}

#[test]
fn the_extremes_of_a_record() {
    let r = MoveRecord {
        player: Player::Dark,
        cell: (usize::MAX, 0),
        delta: ScoreDelta { dark: i8::MAX, light: i8::MIN },
    };
    assert_eq!(
        r.describe(),
        format!("Black - played at x={} y= 0 - Points W:-128 || B:127 \n", usize::MAX)
    );
}
