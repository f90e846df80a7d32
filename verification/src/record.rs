//! The score, the change that a move makes to it, and the record that is
//! kept of each move.

use crate::board::Player;
use vstd::prelude::*;
use vstd::string::StringExecFns;

verus! {

/// The number of discs that each side has on the board.
#[derive(Clone, Copy, Debug, PartialEq, Eq, Structural)]
pub struct Score {
    pub dark: i8,
    pub light: i8,
}

/// The change that one move makes to the score of each side.
#[derive(Clone, Copy, Debug, PartialEq, Eq, Structural)]
pub struct ScoreDelta {
    pub dark: i8,
    pub light: i8,
}

/// The answer to an attempt to move at a cell that is not a legal move.
#[derive(Clone, Copy, Debug, PartialEq, Eq, Structural)]
pub struct IllegalMove;

/// What is kept of a move: who made it, where, and what it did to the
/// score.
#[derive(Clone, Copy, Debug, PartialEq, Eq)]
pub struct MoveRecord {
    pub player: Player,
    pub cell: (usize, usize),
    pub delta: ScoreDelta,
}

/// What a move of `mover` that captures `n` discs adds to the score of
/// `who`: the placed disc and the captured ones for the mover, the loss of
/// the captured ones for the opponent.
pub open spec fn gain(mover: Player, who: Player, n: int) -> int {
    if who == mover {
        1 + n
    } else {
        -n
    }
}

/// The change of score that a move of `mover` makes that captures `n` discs.
pub open spec fn delta_of(mover: Player, n: int) -> ScoreDelta {
    ScoreDelta {
        dark: gain(mover, Player::Dark, n) as i8,
        light: gain(mover, Player::Light, n) as i8,
    }
}

/// The record of a move of `mover` at `p` that captures `n` discs.
pub open spec fn record_of(mover: Player, p: (int, int), n: int) -> MoveRecord {
    MoveRecord { player: mover, cell: (p.0 as usize, p.1 as usize), delta: delta_of(mover, n) }
}

/// The character of a decimal digit.
pub open spec fn digit_char(d: int) -> char {
    if d == 0 {
        '0'
    } else if d == 1 {
        '1'
    } else if d == 2 {
        '2'
    } else if d == 3 {
        '3'
    } else if d == 4 {
        '4'
    } else if d == 5 {
        '5'
    } else if d == 6 {
        '6'
    } else if d == 7 {
        '7'
    } else if d == 8 {
        '8'
    } else {
        '9'
    }
}

/// The decimal digits of a number that is not negative, without leading
/// zeros.
pub open spec fn digits(n: int) -> Seq<char>
    decreases n,
{
    if n < 10 {
        seq![digit_char(n)]
    } else {
        digits(n / 10).push(digit_char(n % 10))
    }
}

/// A number in decimal, with a minus sign where it is negative.
pub open spec fn decimal(n: int) -> Seq<char> {
    if n < 0 {
        seq!['-'] + digits(-n)
    } else {
        digits(n)
    }
}

/// The name under which a side appears in the text of a record.
pub open spec fn name_of(who: Player) -> Seq<char> {
    match who {
        Player::Dark => "Black"@,
        Player::Light => "White"@,
    }
}

/// The line of text that describes a move: who played, where, and what the
/// move added to the score of Light (`W`) and of Dark (`B`).
pub open spec fn record_text(r: MoveRecord) -> Seq<char> {
    name_of(r.player) + " - played at x="@ + decimal(r.cell.0 as int) + " y= "@ + decimal(
        r.cell.1 as int,
    ) + " - Points W:"@ + decimal(r.delta.light as int) + " || B:"@ + decimal(r.delta.dark as int)
        + " \n"@
}

/// The text of one decimal digit.
fn digit(d: u64) -> (s: &'static str)
    requires
        d < 10,
    ensures
        s@ == seq![digit_char(d as int)],
{
    proof {
        reveal_strlit("0");
        reveal_strlit("1");
        reveal_strlit("2");
        reveal_strlit("3");
        reveal_strlit("4");
        reveal_strlit("5");
        reveal_strlit("6");
        reveal_strlit("7");
        reveal_strlit("8");
        reveal_strlit("9");
    }
    let s = if d == 0 {
        "0"
    } else if d == 1 {
        "1"
    } else if d == 2 {
        "2"
    } else if d == 3 {
        "3"
    } else if d == 4 {
        "4"
    } else if d == 5 {
        "5"
    } else if d == 6 {
        "6"
    } else if d == 7 {
        "7"
    } else if d == 8 {
        "8"
    } else {
        "9"
    };
    assert(s@ =~= seq![digit_char(d as int)]);
    s
}

/// Appends the decimal digits of `n` to `out`.
fn append_digits(out: &mut String, n: u64)
    ensures
        final(out)@ == old(out)@ + digits(n as int),
    decreases n,
{
    if n >= 10 {
        append_digits(out, n / 10);
    }
    out.append(digit(n % 10));
    assert(out@ =~= old(out)@ + digits(n as int));
}

/// Appends `n` in decimal to `out`.
fn append_decimal(out: &mut String, n: i64)
    requires
        n > i64::MIN,
    ensures
        final(out)@ == old(out)@ + decimal(n as int),
{
    if n < 0 {
        proof {
            reveal_strlit("-");
        }
        out.append("-");
        append_digits(out, (-n) as u64);
        assert(out@ =~= old(out)@ + decimal(n as int));
    } else {
        append_digits(out, n as u64);
    }
}

impl MoveRecord {
    /// The line of text that describes the move.
    pub fn describe(&self) -> (text: String)
        ensures
            text@ == record_text(*self),
    {
        let mut text = match self.player {
            Player::Dark => String::from_str("Black"),
            Player::Light => String::from_str("White"),
        };
        text.append(" - played at x=");
        append_digits(&mut text, self.cell.0 as u64);
        text.append(" y= ");
        append_digits(&mut text, self.cell.1 as u64);
        text.append(" - Points W:");
        append_decimal(&mut text, self.delta.light as i64);
        text.append(" || B:");
        append_decimal(&mut text, self.delta.dark as i64);
        text.append(" \n");
        text
    }
}

} // verus!
