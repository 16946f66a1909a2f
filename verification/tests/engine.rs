use zugzwang::engine::{describe_analysis, format_eval, format_move_readable, Analysis};
use zugzwang::PlayerSide;

#[test]
fn moves_are_made_readable() {
    assert_eq!(format_move_readable("c2c3"), "C2 to C3");
    assert_eq!(format_move_readable("e7e8q"), "E7 to E8 (=Q)");
    assert_eq!(format_move_readable("E2E4"), "E2 to E4");
    assert_eq!(format_move_readable("a7a8N"), "A7 to A8 (=N)");
}

#[test]
fn unexpected_moves_stay_as_they_are() {
    assert_eq!(format_move_readable(""), "");
    assert_eq!(format_move_readable("e2"), "e2");
    assert_eq!(format_move_readable("e2e"), "e2e");
    assert_eq!(format_move_readable("\u{e9}2e4"), "\u{e9}2e4");
}

#[test]
fn longer_moves_show_their_first_two_squares() {
    assert_eq!(format_move_readable("e2e4xx"), "E2 to E4");
    assert_eq!(format_move_readable("0000"), "00 to 00");
}

#[test]
fn readable_moves_agree_with_the_standard_library() {
    for uci in ["c2c3", "e7e8q", "g1f3", "h7h8r", "a1h8", "b7b8b", "z9{`~"] {
        let from = uci[0..2].to_uppercase();
        let to = uci[2..4].to_uppercase();
        let expected = if uci.len() == 5 {
            let promo = uci.chars().nth(4).unwrap().to_uppercase().next().unwrap();
            format!("{} to {} (={})", from, to, promo)
        } else {
            format!("{} to {}", from, to)
        };
        assert_eq!(format_move_readable(uci), expected);
    }
}

#[test]
fn evaluations_are_written_in_pawns() {
    assert_eq!(format_eval(0), "+0.00");
    assert_eq!(format_eval(35), "+0.35");
    assert_eq!(format_eval(5), "+0.05");
    assert_eq!(format_eval(100), "+1.00");
    assert_eq!(format_eval(1234), "+12.34");
    assert_eq!(format_eval(-5), "-0.05");
    assert_eq!(format_eval(-120), "-1.20");
    assert_eq!(format_eval(-99), "-0.99");
    assert_eq!(format_eval(i32::MAX), "+21474836.47");
    assert_eq!(format_eval(i32::MIN), "-21474836.48");
}

#[test]
fn evaluations_agree_with_float_formatting() {
    let mut centipawns: i32 = -250_000;
    while centipawns <= 250_000 {
        let pawns = centipawns as f64 / 100.0;
        let expected = if pawns >= 0.0 {
            format!("+{:.2}", pawns)
        } else {
            format!("{:.2}", pawns)
        };
        assert_eq!(format_eval(centipawns), expected);
        centipawns += 7;
    }
    for centipawns in [i32::MIN, i32::MIN + 1, -1, 1, 99, 101, i32::MAX - 1, i32::MAX] {
        let pawns = centipawns as f64 / 100.0;
        let expected = if pawns >= 0.0 {
            format!("+{:.2}", pawns)
        } else {
            format!("{:.2}", pawns)
        };
        assert_eq!(format_eval(centipawns), expected);
    }
}

#[test]
fn finished_games_have_no_move() {
    let mate = Analysis::Checkmate { to_move: PlayerSide::White };
    assert_eq!(
        describe_analysis(&mate),
        (String::from("--"), String::from("Black wins by checkmate"))
    );
    let mate = Analysis::Checkmate { to_move: PlayerSide::Black };
    assert_eq!(
        describe_analysis(&mate),
        (String::from("--"), String::from("White wins by checkmate"))
    );
    assert_eq!(
        describe_analysis(&Analysis::Stalemate),
        (String::from("--"), String::from("Stalemate"))
    );
}

#[test]
fn evaluation_is_seen_from_the_side_to_move() {
    let white = Analysis::BestMove {
        uci: String::from("c2c3"),
        raw_eval: 42,
        to_move: PlayerSide::White,
    };
    assert_eq!(describe_analysis(&white), (String::from("C2 to C3"), String::from("+0.42")));
    let black = Analysis::BestMove {
        uci: String::from("e7e8q"),
        raw_eval: 42,
        to_move: PlayerSide::Black,
    };
    assert_eq!(describe_analysis(&black), (String::from("E7 to E8 (=Q)"), String::from("-0.42")));
    let black = Analysis::BestMove {
        uci: String::from("g8f6"),
        raw_eval: -150,
        to_move: PlayerSide::Black,
    };
    assert_eq!(describe_analysis(&black), (String::from("G8 to F6"), String::from("+1.50")));
    let level = Analysis::BestMove {
        uci: String::from("g8f6"),
        raw_eval: 0,
        to_move: PlayerSide::Black,
    };
    assert_eq!(describe_analysis(&level), (String::from("G8 to F6"), String::from("+0.00")));
}
