//! The table of gamemodes and the naming of their icons.

use vstd::prelude::*;

verus! {

/// A gamemode: how the names of its icons begin, and whether its icons are
/// assembled from the moving parts of a pose.
#[derive(Clone, Debug)]
pub struct Gamemode {
    pub prefix: String,
    pub zany: bool,
}

/// The gamemode of the given name, as its prefix and its flag, if the table has it.
pub open spec fn gamemode_of(name: Seq<char>) -> Option<(Seq<char>, bool)> {
    if name == "cube"@ {
        Some(("player_"@, false))
    } else if name == "ship"@ {
        Some(("ship_"@, false))
    } else if name == "ball"@ {
        Some(("player_ball_"@, false))
    } else if name == "ufo"@ {
        Some(("bird_"@, false))
    } else if name == "wave"@ {
        Some(("dart_"@, false))
    } else if name == "robot"@ {
        Some(("robot_"@, true))
    } else if name == "spider"@ {
        Some(("spider_"@, true))
    } else {
        None
    }
}

/// Whether a text is the given word.
fn is_word(text: &String, word: &str) -> (r: bool)
    ensures
        r == (text@ == word@),
{
    let other = String::from_str(word);
    *text == other
}

/// Looks a gamemode up by its name: one of `cube`, `ship`, `ball`, `ufo`,
/// `wave`, `robot` and `spider`.
pub fn gamemode(name: &str) -> (r: Option<Gamemode>)
    ensures
        match r {
            Some(mode) => gamemode_of(name@) == Some((mode.prefix@, mode.zany)),
            None => gamemode_of(name@).is_none(),
        },
{
    let wanted = String::from_str(name);
    if is_word(&wanted, "cube") {
        Some(Gamemode { prefix: String::from_str("player_"), zany: false })
    } else if is_word(&wanted, "ship") {
        Some(Gamemode { prefix: String::from_str("ship_"), zany: false })
    } else if is_word(&wanted, "ball") {
        Some(Gamemode { prefix: String::from_str("player_ball_"), zany: false })
    } else if is_word(&wanted, "ufo") {
        Some(Gamemode { prefix: String::from_str("bird_"), zany: false })
    } else if is_word(&wanted, "wave") {
        Some(Gamemode { prefix: String::from_str("dart_"), zany: false })
    } else if is_word(&wanted, "robot") {
        Some(Gamemode { prefix: String::from_str("robot_"), zany: true })
    } else if is_word(&wanted, "spider") {
        Some(Gamemode { prefix: String::from_str("spider_"), zany: true })
    } else {
        None
    }
}

/// The character of a decimal digit.
pub open spec fn digit(d: int) -> char {
    if d == 0 {
        '0'
    } else if d == 1 {
        '1'
    } else if d == 2 {
        '2'
    } else if d == 3 {
        '3'
    } else if d == 4 {
        '4'
    } else if d == 5 {
        '5'
    } else if d == 6 {
        '6'
    } else if d == 7 {
        '7'
    } else if d == 8 {
        '8'
    } else {
        '9'
    }
}

/// A number in decimal digits, without leading zeros.
pub open spec fn decimal(n: nat) -> Seq<char>
    decreases n,
{
    if n < 10 {
        seq![digit(n as int)]
    } else {
        decimal(n / 10).push(digit((n % 10) as int))
    }
}

/// A number in at least two characters: a single digit gets a zero before
/// it, and a negative number its sign.
pub open spec fn zero_padded(n: int) -> Seq<char> {
    if n < 0 {
        seq!['-'] + decimal((-n) as nat)
    } else if n < 10 {
        seq!['0'] + decimal(n as nat)
    } else {
        decimal(n as nat)
    }
}

/// The text of one decimal digit.
fn digit_text(d: u32) -> (r: &'static str)
    requires
        d < 10,
    ensures
        r@ == seq![digit(d as int)],
{
    proof {
        reveal_strlit("0");
        reveal_strlit("1");
        reveal_strlit("2");
        reveal_strlit("3");
        reveal_strlit("4");
        reveal_strlit("5");
        reveal_strlit("6");
        reveal_strlit("7");
        reveal_strlit("8");
        reveal_strlit("9");
    }
    let r = if d == 0 {
        "0"
    } else if d == 1 {
        "1"
    } else if d == 2 {
        "2"
    } else if d == 3 {
        "3"
    } else if d == 4 {
        "4"
    } else if d == 5 {
        "5"
    } else if d == 6 {
        "6"
    } else if d == 7 {
        "7"
    } else if d == 8 {
        "8"
    } else {
        "9"
    };
    r
}

/// Writes a number in decimal digits behind a text.
fn push_decimal(out: &mut String, n: u32)
    ensures
        final(out)@ == old(out)@ + decimal(n as nat),
    decreases n,
{
    if n >= 10 {
        push_decimal(out, n / 10);
    }
    out.append(digit_text(n % 10));
}

/// The name of an icon: the gamemode's prefix and the icon's number in at
/// least two characters.
pub fn icon_name(prefix: &str, icon: i32) -> (r: String)
    ensures
        r@ == prefix@ + zero_padded(icon as int),
{
    let mut name = String::from_str(prefix);
    proof {
        reveal_strlit("-");
        reveal_strlit("0");
    }
    if icon < 0 {
        name.append("-");
        let magnitude: u32 = (-(icon as i64)) as u32;
        push_decimal(&mut name, magnitude);
    } else {
        if icon < 10 {
            name.append("0");
        }
        push_decimal(&mut name, icon as u32);
    }
    name
}

} // verus!
