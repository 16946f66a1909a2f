//! Putting what the chess engine found into words: the move in readable
//! form and the evaluation in pawns.

use crate::text::{chars_of, decimal, digit_char, push_decimal, string_of};
use crate::PlayerSide;
use vstd::prelude::*;
use vstd::string::*;

verus! {

/// What the engine found in a position.
#[derive(Debug)]
pub enum Analysis {
    /// The side to move is checkmated.
    Checkmate { to_move: PlayerSide },
    /// The side to move has no move and is not in check.
    Stalemate,
    /// The best move in UCI notation, and the evaluation in centipawns
    /// from White's point of view after it.
    BestMove { uci: String, raw_eval: i32, to_move: PlayerSide },
}

/// Whether every character of `s` is ASCII.
pub open spec fn is_ascii_text(s: Seq<char>) -> bool {
    forall|i: int| 0 <= i < s.len() ==> (#[trigger] s[i] as u32) < 128
}

/// An ASCII lower-case letter as the upper-case one, anything else as
/// itself.
pub open spec fn upper(c: char) -> char {
    if 'a' <= c <= 'z' {
        (c as u32 - 32) as char
    } else {
        c
    }
}

/// `s` with every character in upper case.
pub open spec fn upper_text(s: Seq<char>) -> Seq<char> {
    s.map_values(|c: char| upper(c))
}

/// A move in UCI notation, made readable: `c2c3` becomes `C2 to C3`, and
/// a fifth character names the piece a pawn is promoted to. Anything that
/// is shorter than four characters, or not ASCII, stays as it is.
pub open spec fn readable_move(uci: Seq<char>) -> Seq<char> {
    if is_ascii_text(uci) && uci.len() >= 4 {
        let squares = upper_text(uci.subrange(0, 2)) + " to "@ + upper_text(uci.subrange(2, 4));
        if uci.len() == 5 {
            squares + " (="@ + seq![upper(uci[4])] + ")"@
        } else {
            squares
        }
    } else {
        uci
    }
}

/// An evaluation in centipawns, written in pawns with a sign and two
/// decimals.
pub open spec fn eval_text(centipawns: int) -> Seq<char> {
    let size = if centipawns < 0 {
        -centipawns
    } else {
        centipawns
    };
    (if centipawns < 0 {
        "-"@
    } else {
        "+"@
    }) + decimal((size / 100) as nat) + "."@ + seq![
        digit_char(size % 100 / 10),
        digit_char(size % 10),
    ]
}

/// The evaluation from the point of view of the side to move.
pub open spec fn eval_for(raw_eval: int, to_move: PlayerSide) -> int {
    match to_move {
        PlayerSide::White => raw_eval,
        PlayerSide::Black => -raw_eval,
    }
}

/// The words for the winner of a checkmate: the side that is not to move.
pub open spec fn checkmate_text(to_move: PlayerSide) -> Seq<char> {
    match to_move {
        PlayerSide::White => "Black wins by checkmate"@,
        PlayerSide::Black => "White wins by checkmate"@,
    }
}

/// The move and the evaluation that an analysis is reported with.
pub open spec fn analysis_text(analysis: Analysis) -> (Seq<char>, Seq<char>) {
    match analysis {
        Analysis::Checkmate { to_move } => ("--"@, checkmate_text(to_move)),
        Analysis::Stalemate => ("--"@, "Stalemate"@),
        Analysis::BestMove { uci, raw_eval, to_move } => (
            readable_move(uci@),
            eval_text(eval_for(raw_eval as int, to_move)),
        ),
    }
}

/// An ASCII lower-case letter as the upper-case one, anything else as
/// itself.
pub fn to_upper(c: char) -> (u: char)
    ensures
        u == upper(c),
{
    if 'a' <= c && c <= 'z' {
        ((c as u8) - 32) as char
    } else {
        c
    }
}

/// Whether every character of `chars` is ASCII.
pub fn all_ascii(chars: &Vec<char>) -> (yes: bool)
    ensures
        yes == is_ascii_text(chars@),
{
    let mut i: usize = 0;
    while i < chars.len()
        invariant
            i <= chars.len(),
            forall|k: int| 0 <= k < i ==> (#[trigger] chars@[k] as u32) < 128,
        decreases chars.len() - i,
    {
        if chars[i] as u32 >= 128 {
            return false;
        }
        i += 1;
    }
    true
}

/// Makes a move in UCI notation readable: `c2c3` becomes `C2 to C3`, and
/// `e7e8q` becomes `E7 to E8 (=Q)`.
pub fn format_move_readable(uci: &str) -> (readable: String)
    ensures
        readable@ == readable_move(uci@),
{
    let chars = chars_of(uci);
    if chars.len() < 4 || !all_ascii(&chars) {
        return string_of(&chars);
    }
    let mut readable = String::new();
    readable.push(to_upper(chars[0]));
    readable.push(to_upper(chars[1]));
    readable.append(" to ");
    readable.push(to_upper(chars[2]));
    readable.push(to_upper(chars[3]));
    proof {
        assert(upper_text(uci@.subrange(0, 2)) == seq![upper(uci@[0]), upper(uci@[1])]);
        assert(upper_text(uci@.subrange(2, 4)) == seq![upper(uci@[2]), upper(uci@[3])]);
        assert(readable@ == upper_text(uci@.subrange(0, 2)) + " to "@ + upper_text(
            uci@.subrange(2, 4),
        ));
    }
    if chars.len() == 5 {
        readable.append(" (=");
        readable.push(to_upper(chars[4]));
        readable.append(")");
        assert(readable@ == upper_text(uci@.subrange(0, 2)) + " to "@ + upper_text(
            uci@.subrange(2, 4),
        ) + " (="@ + seq![upper(uci@[4])] + ")"@);
    }
    readable
}

/// Writes an evaluation in centipawns in pawns.
fn format_centipawns(centipawns: i64) -> (text: String)
    requires
        -0x8000_0000 <= centipawns <= 0x8000_0000,
    ensures
        text@ == eval_text(centipawns as int),
{
    let size: u64 = if centipawns < 0 {
        (-centipawns) as u64
    } else {
        centipawns as u64
    };
    let mut text = if centipawns < 0 {
        "-".to_string()
    } else {
        "+".to_string()
    };
    push_decimal(&mut text, size / 100);
    text.append(".");
    let tens: u8 = (size % 100 / 10) as u8;
    let ones: u8 = (size % 10) as u8;
    text.push((0x30u8 + tens) as char);
    text.push((0x30u8 + ones) as char);
    proof {
        let head = (if centipawns < 0 {
            "-"@
        } else {
            "+"@
        }) + decimal((size / 100) as nat) + "."@;
        assert(text@ == head.push(digit_char(size as int % 100 / 10)).push(
            digit_char(size as int % 10),
        ));
        assert(head.push(digit_char(size as int % 100 / 10)).push(digit_char(size as int % 10))
            == head + seq![digit_char(size as int % 100 / 10), digit_char(size as int % 10)]);
    }
    text
}

/// Writes an evaluation in centipawns in pawns, with a sign and two
/// decimals: `+0.35`, `-1.20`.
pub fn format_eval(centipawns: i32) -> (text: String)
    ensures
        text@ == eval_text(centipawns as int),
{
    format_centipawns(centipawns as i64)
}

/// The move and the evaluation that an analysis is reported with. A
/// finished game has no move; otherwise the evaluation is turned to the
/// point of view of the side to move.
pub fn describe_analysis(analysis: &Analysis) -> (report: (String, String))
    ensures
        report.0@ == analysis_text(*analysis).0,
        report.1@ == analysis_text(*analysis).1,
{
    match analysis {
        Analysis::Checkmate { to_move } => {
            let winner = match to_move {
                PlayerSide::White => "Black wins by checkmate",
                PlayerSide::Black => "White wins by checkmate",
            };
            ("--".to_string(), winner.to_string())
        },
        Analysis::Stalemate => ("--".to_string(), "Stalemate".to_string()),
        Analysis::BestMove { uci, raw_eval, to_move } => {
            let score: i64 = match to_move {
                PlayerSide::White => *raw_eval as i64,
                PlayerSide::Black => -(*raw_eval as i64),
            };
            (format_move_readable(uci.as_str()), format_centipawns(score))
        },
    }
}

} // verus!
