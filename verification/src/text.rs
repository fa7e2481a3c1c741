//! The two texts that the game shows or sends: the scoreboard line and the
//! address of a lobby room.

use vstd::prelude::*;
use vstd::string::*;

verus! {

/// The character of a decimal digit.
pub open spec fn digit_char(d: nat) -> char {
    if d == 0 {
        '0'
    } else if d == 1 {
        '1'
    } else if d == 2 {
        '2'
    } else if d == 3 {
        '3'
    } else if d == 4 {
        '4'
    } else if d == 5 {
        '5'
    } else if d == 6 {
        '6'
    } else if d == 7 {
        '7'
    } else if d == 8 {
        '8'
    } else {
        '9'
    }
}

/// A number in decimal, without sign and without leading zeros.
pub open spec fn decimal(n: nat) -> Seq<char>
    decreases n,
{
    if n < 10 {
        seq![digit_char(n)]
    } else {
        decimal(n / 10).push(digit_char(n % 10))
    }
}

/// What stands between two scores on the scoreboard: a hyphen between two
/// blanks.
pub open spec fn separator() -> Seq<char> {
    seq![' ', '-', ' ']
}

/// The scores in decimal, in their order, with the separator between each
/// two.
pub open spec fn scoreboard(scores: Seq<u32>) -> Seq<char>
    decreases scores.len(),
{
    if scores.len() == 0 {
        Seq::empty()
    } else if scores.len() == 1 {
        decimal(scores[0] as nat)
    } else {
        scoreboard(scores.drop_last()) + separator() + decimal(scores.last() as nat)
    }
}

/// The address of a room on a signalling server for a match of `players`:
/// the server, a slash, the room, and the number of players as the query
/// `next`.
pub open spec fn room_address(server: Seq<char>, room: Seq<char>, players: nat) -> Seq<char> {
    server + seq!['/'] + room + seq!['?', 'n', 'e', 'x', 't', '='] + decimal(players)
}

/// The text of one decimal digit.
fn digit_text(d: u64) -> (r: &'static str)
    requires
        d < 10,
    ensures
        r@ == seq![digit_char(d as nat)],
{
    proof {
        reveal_strlit("0");
        reveal_strlit("1");
        reveal_strlit("2");
        reveal_strlit("3");
        reveal_strlit("4");
        reveal_strlit("5");
        reveal_strlit("6");
        reveal_strlit("7");
        reveal_strlit("8");
        reveal_strlit("9");
    }
    let r = if d == 0 {
        "0"
    } else if d == 1 {
        "1"
    } else if d == 2 {
        "2"
    } else if d == 3 {
        "3"
    } else if d == 4 {
        "4"
    } else if d == 5 {
        "5"
    } else if d == 6 {
        "6"
    } else if d == 7 {
        "7"
    } else if d == 8 {
        "8"
    } else {
        "9"
    };
    assert(r@ =~= seq![digit_char(d as nat)]);
    r
}

/// Writes a number in decimal.
pub fn decimal_text(n: u64) -> (r: String)
    ensures
        r@ == decimal(n as nat),
    decreases n,
{
    if n < 10 {
        String::from_str(digit_text(n))
    } else {
        let mut s = decimal_text(n / 10);
        s.append(digit_text(n % 10));
        assert(s@ =~= decimal(n as nat));
        s
    }
}

/// Writes the scoreboard line: the scores by handle in ascending order,
/// each in decimal, with a hyphen between two blanks between each two.
pub fn scoreboard_text(scores: &Vec<u32>) -> (r: String)
    ensures
        r@ == scoreboard(scores@),
{
    let mut out = String::new();
    let mut i: usize = 0;
    while i < scores.len()
        invariant
            i <= scores.len(),
            out@ == scoreboard(scores@.take(i as int)),
        decreases scores.len() - i,
    {
        proof {
            reveal_strlit(" - ");
            assert(" - "@ =~= separator());
            assert(scores@.take(i + 1).drop_last() =~= scores@.take(i as int));
        }
        if i > 0 {
            out.append(" - ");
        }
        let number = decimal_text(scores[i] as u64);
        out.append(number.as_str());
        i = i + 1;
        assert(out@ =~= scoreboard(scores@.take(i as int)));
    }
    assert(scores@.take(i as int) =~= scores@);
    out
}

/// Writes the address of a room on a signalling server.
pub fn room_url(server: &str, room: &str, players: usize) -> (r: String)
    ensures
        r@ == room_address(server@, room@, players as nat),
{
    proof {
        reveal_strlit("/");
        reveal_strlit("?next=");
    }
    let mut out = String::from_str(server);
    out.append("/");
    out.append(room);
    out.append("?next=");
    let number = decimal_text(players as u64);
    out.append(number.as_str());
    assert(out@ =~= room_address(server@, room@, players as nat));
    out
}

} // verus!
