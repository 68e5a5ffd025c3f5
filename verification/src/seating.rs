//! Filling a table with players for a trial game: one named player and a
//! number of numbered ones.

use crate::player::{Player, PlayerView};
use vstd::prelude::*;
use vstd::string::StringExecFns;

verus! {

/// How many numbered players sit down where no number is asked for.
pub const DEFAULT_OPPONENTS: u8 = 7;

/// The character of a decimal digit.
pub open spec fn digit_char(d: int) -> char {
    if d == 0 {
        '0'
    } else if d == 1 {
        '1'
    } else if d == 2 {
        '2'
    } else if d == 3 {
        '3'
    } else if d == 4 {
        '4'
    } else if d == 5 {
        '5'
    } else if d == 6 {
        '6'
    } else if d == 7 {
        '7'
    } else if d == 8 {
        '8'
    } else {
        '9'
    }
}

/// A number written in decimal digits, without leading zeros.
pub open spec fn decimal(n: nat) -> Seq<char>
    decreases n,
{
    if n < 10 {
        seq![digit_char(n as int)]
    } else {
        decimal(n / 10) + seq![digit_char((n % 10) as int)]
    }
}

/// The name of the numbered player `idx`.
pub open spec fn opponent_name(idx: nat) -> Seq<char> {
    "test_player"@ + decimal(idx)
}

/// The name of the player in the first seat.
pub open spec fn hero_name() -> Seq<char> {
    "phil"@
}

/// One decimal digit as text.
fn digit_str(d: u8) -> (s: &'static str)
    requires
        d < 10,
    ensures
        s@ == seq![digit_char(d as int)],
{
    proof {
        reveal_strlit("0");
        reveal_strlit("1");
        reveal_strlit("2");
        reveal_strlit("3");
        reveal_strlit("4");
        reveal_strlit("5");
        reveal_strlit("6");
        reveal_strlit("7");
        reveal_strlit("8");
        reveal_strlit("9");
    }
    let s = match d {
        0 => "0",
        1 => "1",
        2 => "2",
        3 => "3",
        4 => "4",
        5 => "5",
        6 => "6",
        7 => "7",
        8 => "8",
        _ => "9",
    };
    assert(s@ =~= seq![digit_char(d as int)]);
    s
}

/// The name of the numbered player `idx`: `test_player` and the number.
pub fn opponent(idx: u8) -> (name: String)
    ensures
        name@ == opponent_name(idx as nat),
{
    let mut name = "test_player".to_owned();
    proof {
        reveal_with_fuel(decimal, 3);
    }
    if idx >= 100 {
        name.append(digit_str(idx / 100));
    }
    if idx >= 10 {
        name.append(digit_str((idx / 10) % 10));
    }
    name.append(digit_str(idx % 10));
    proof {
        assert(name@ =~= opponent_name(idx as nat));
    }
    name
}

/// The players of a trial game: `phil` in the first seat, then `count`
/// numbered players, seven where no number is given. All have just sat
/// down.
pub fn setup_players(count: Option<u8>) -> (vp: Vec<Player>)
    ensures
        vp@.len() == 1 + match count {
            Some(ct) => ct,
            None => DEFAULT_OPPONENTS,
        },
        vp@[0]@ == PlayerView::fresh(hero_name()),
        forall|i: int|
            1 <= i < vp@.len() ==> (#[trigger] vp@[i])@ == PlayerView::fresh(
                opponent_name((i - 1) as nat),
            ),
{
    let mut vp: Vec<Player> = Vec::new();
    vp.push(Player::new("phil".to_owned()));
    let ct = match count {
        Some(ct) => ct,
        None => DEFAULT_OPPONENTS,
    };
    let mut idx: u8 = 0;
    while idx < ct
        invariant
            idx <= ct,
            vp@.len() == 1 + idx,
            vp@[0]@ == PlayerView::fresh(hero_name()),
            forall|i: int|
                1 <= i < vp@.len() ==> (#[trigger] vp@[i])@ == PlayerView::fresh(
                    opponent_name((i - 1) as nat),
                ),
        decreases ct - idx,
    {
        vp.push(Player::new(opponent(idx)));
        idx += 1;
    }
    vp
}

} // verus!
