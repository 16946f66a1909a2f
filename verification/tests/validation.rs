use zugzwang::fen::{
    check_counts, conclude_validation, fix_castling_rights, validate_fen, FenError,
    FenSyntaxError,
};

#[test]
fn test_validate_fen_accepts_valid_white() {
    let valid = "rnbqkbnr/pppppppp/8/8/8/8/PPPPPPPP/RNBQKBNR w KQkq - 0 1";
    let result = validate_fen(valid);
    assert!(result.is_ok());
    assert_eq!(result.unwrap(), "rnbqkbnr/pppppppp/8/8/8/8/PPPPPPPP/RNBQKBNR w KQkq - 0 1");
}

#[test]
fn test_validate_fen_accepts_valid_black() {
    let valid = "rnbqkbnr/pppppppp/8/8/4P3/8/PPPP1PPP/RNBQKBNR b KQkq - 0 1";
    let result = validate_fen(valid);
    assert!(result.is_ok());
    assert_eq!(result.unwrap(), "rnbqkbnr/pppppppp/8/8/4P3/8/PPPP1PPP/RNBQKBNR b KQkq - 0 1");
}

#[test]
fn test_validate_fen_rejects_invalid() {
    let invalid = "not a fen string";
    assert!(validate_fen(invalid).is_err());
}

#[test]
fn test_validate_fen_rejects_too_many_white_pawns() {
    let invalid = "rnbqkbnr/pppppppp/8/8/4P3/8/PPPPPPPP/RNBQKBNR b KQkq - 0 1";
    let result = validate_fen(invalid);
    assert!(result.is_err());
    assert!(result.unwrap_err().message().contains("9 pawns"));
}

#[test]
fn test_validate_fen_rejects_too_many_black_pawns() {
    let invalid = "rnbqkbnr/pppppppp/4p3/8/8/8/PPPPPPPP/RNBQKBNR w KQkq - 0 1";
    let result = validate_fen(invalid);
    assert!(result.is_err());
    assert!(result.unwrap_err().message().contains("9 pawns"));
}

#[test]
fn test_fix_castling_removes_rights_when_king_moved() {
    let fen_with_bad_castling = "r4rk1/pp1p1ppp/1n6/2p5/3P2N1/3P1N2/PPPBP1PP/R2QKB1R b KQkq - 0 1";
    let result = validate_fen(fen_with_bad_castling);
    assert!(result.is_ok());
    let corrected = result.unwrap();
    assert!(corrected.contains(" KQ ") || corrected.contains(" - "));
    assert!(!corrected.contains("kq"));
}

#[test]
fn test_fix_castling_no_rights_when_both_kings_moved() {
    let fen = "r4rk1/pppppppp/8/8/8/8/PPPPPPPP/R3K2R b KQkq - 0 1";
    let result = validate_fen(fen);
    assert!(result.is_ok());
    let corrected = result.unwrap();
    assert!(corrected.contains(" KQ "));
}

#[test]
fn test_fix_castling_keeps_partial_rights() {
    let fen = "r3k2r/pppppppp/8/8/8/8/PPPPPPPP/4K2R w KQkq - 0 1";
    let result = validate_fen(fen);
    assert!(result.is_ok());
    let corrected = result.unwrap();
    assert!(corrected.contains(" Kkq "));
}

#[test]
fn moved_black_king_leaves_only_white_rights() {
    let corrected =
        fix_castling_rights("r4rk1/pp1p1ppp/1n6/2p5/3P2N1/3P1N2/PPPBP1PP/R2QKB1R b KQkq - 0 1");
    assert_eq!(corrected, "r4rk1/pp1p1ppp/1n6/2p5/3P2N1/3P1N2/PPPBP1PP/R2QKB1R b KQ - 0 1");
}

#[test]
fn castling_field_follows_the_home_squares() {
    let cases = [
        ("r3k2r/8/8/8/8/8/8/R3K2R w - - 5 9", "r3k2r/8/8/8/8/8/8/R3K2R w KQkq - 0 1"),
        ("r3k2r/8/8/8/8/8/8/4K2R w KQkq - 0 1", "r3k2r/8/8/8/8/8/8/4K2R w Kkq - 0 1"),
        ("r3k3/8/8/8/8/8/8/R3K3 b KQkq e3 0 1", "r3k3/8/8/8/8/8/8/R3K3 b Qq - 0 1"),
        ("4k2r/8/8/8/8/8/8/R2K3R w KQkq - 0 1", "4k2r/8/8/8/8/8/8/R2K3R w k - 0 1"),
        ("3k4/8/8/8/8/8/8/3K4 w KQkq - 0 1", "3k4/8/8/8/8/8/8/3K4 w - - 0 1"),
        ("R3K2R/8/8/8/8/8/8/r3k2r w KQkq - 0 1", "R3K2R/8/8/8/8/8/8/r3k2r w - - 0 1"),
        ("1r2k2r/8/8/8/8/8/8/R3K1R1 w KQkq - 0 1", "1r2k2r/8/8/8/8/8/8/R3K1R1 w Qk - 0 1"),
    ];
    for (fen, expected) in cases {
        assert_eq!(fix_castling_rights(fen), expected);
    }
}

#[test]
fn short_or_misshapen_strings_stay_as_they_are() {
    for fen in [
        "",
        "   ",
        "rnbqkbnr/pppppppp/8/8/8/8/PPPPPPPP/RNBQKBNR w",
        "rnbqkbnr/pppppppp/8/8/8/8/PPPPPPPP w KQkq - 0 1",
        "rnbqkbnr/pppppppp/8/8/8/8/8/PPPPPPPP/RNBQKBNR w KQkq - 0 1",
        "not a fen string",
    ] {
        assert_eq!(fix_castling_rights(fen), fen);
    }
}

#[test]
fn fields_are_rejoined_with_single_spaces() {
    assert_eq!(
        fix_castling_rights("  4k3/8/8/8/8/8/8/4K2R \t b\u{a0}KQkq  "),
        "4k3/8/8/8/8/8/8/4K2R b K - 0 1"
    );
}

#[test]
fn digits_expand_to_empty_squares() {
    assert_eq!(
        fix_castling_rights("r2k4/8/8/8/8/8/8/04K02R w KQkq - 0 1"),
        "r2k4/8/8/8/8/8/8/04K02R w K - 0 1"
    );
    assert_eq!(
        fix_castling_rights("rk/8/8/8/8/8/8/9K w KQkq - 0 1"),
        "rk/8/8/8/8/8/8/9K w - - 0 1"
    );
}

#[test]
fn king_counts_are_checked_first() {
    match check_counts("8/8/8/8/8/8/8/8 w - - 0 1") {
        Err(FenError::KingCount { white, black, received }) => {
            assert_eq!((white, black), (0, 0));
            assert_eq!(received, "8/8/8/8/8/8/8/8 w - - 0 1");
        }
        other => panic!("got {:?}", other),
    }
    match check_counts("kk6/PPPPPPPP/1P6/8/8/8/8/K7 w - - 0 1") {
        Err(FenError::KingCount { white, black, .. }) => assert_eq!((white, black), (1, 2)),
        other => panic!("got {:?}", other),
    }
    match check_counts("") {
        Err(FenError::KingCount { white, black, .. }) => assert_eq!((white, black), (0, 0)),
        other => panic!("got {:?}", other),
    }
    assert_eq!(
        check_counts("KK6/8/8/8/8/8/8/8 w").unwrap_err().message(),
        "Invalid FEN from LLM: expected exactly 1 king per side, got 2 white kings and 0 black kings (received: 'KK6/8/8/8/8/8/8/8 w')"
    );
}

#[test]
fn only_the_board_part_is_counted() {
    assert!(check_counts("k7/8/8/8/8/8/8/K7 w KQkq - 0 1").is_ok());
    assert!(check_counts("k7/pppppppp/8/8/8/8/PPPPPPPP/K7 b - - 0 1").is_ok());
    assert!(check_counts("  Kk PPPPPPPPPPPP").is_ok());
}

#[test]
fn pawn_counts_are_checked_white_first() {
    match check_counts("k7/pppppppp/1p6/8/8/1P6/PPPPPPPP/K7 w - - 0 1") {
        Err(FenError::WhitePawns { count, .. }) => assert_eq!(count, 9),
        other => panic!("got {:?}", other),
    }
    match check_counts("k7/pppppppp/pp6/8/8/8/PPPPPPPP/K7 w - - 0 1") {
        Err(FenError::BlackPawns { count, received }) => {
            assert_eq!(count, 10);
            assert_eq!(received, "k7/pppppppp/pp6/8/8/8/PPPPPPPP/K7 w - - 0 1");
        }
        other => panic!("got {:?}", other),
    }
    assert_eq!(
        validate_fen("rnbqkbnr/pppppppp/8/8/4P3/8/PPPPPPPP/RNBQKBNR b KQkq - 0 1")
            .unwrap_err()
            .message(),
        "Invalid FEN from LLM: White has 9 pawns (max 8). LLM likely forgot to remove pawn from starting square. (received: 'rnbqkbnr/pppppppp/8/8/4P3/8/PPPPPPPP/RNBQKBNR b KQkq - 0 1')"
    );
    assert_eq!(
        validate_fen("rnbqkbnr/pppppppp/4p3/8/8/8/PPPPPPPP/RNBQKBNR w KQkq - 0 1")
            .unwrap_err()
            .message(),
        "Invalid FEN from LLM: Black has 9 pawns (max 8). LLM likely forgot to remove pawn from starting square. (received: 'rnbqkbnr/pppppppp/4p3/8/8/8/PPPPPPPP/RNBQKBNR w KQkq - 0 1')"
    );
}

#[test]
fn syntax_errors_come_from_the_parser() {
    match validate_fen("k7/8/8/8/8/8/8/K6 w - - 0 1") {
        Err(FenError::Syntax { reason, corrected }) => {
            assert_eq!(reason, FenSyntaxError::InvalidBoard);
            assert_eq!(corrected, "k7/8/8/8/8/8/8/K6 w - - 0 1");
        }
        other => panic!("got {:?}", other),
    }
    match validate_fen("k7/8/8/8/8/8/8/K7 x KQkq - 0 1") {
        Err(FenError::Syntax { reason, corrected }) => {
            assert_eq!(reason, FenSyntaxError::InvalidTurn);
            assert_eq!(corrected, "k7/8/8/8/8/8/8/K7 x - - 0 1");
        }
        other => panic!("got {:?}", other),
    }
    assert_eq!(
        validate_fen("Kk").unwrap_err().message(),
        "Invalid FEN syntax from LLM: invalid board part in fen (received: 'Kk')"
    );
}

#[test]
fn two_fields_are_enough_for_the_parser() {
    assert_eq!(validate_fen("k7/8/8/8/8/8/8/K7 w").unwrap(), "k7/8/8/8/8/8/8/K7 w");
}

#[test]
fn conclusion_follows_the_finding() {
    assert_eq!(conclude_validation(String::from("anything"), None).unwrap(), "anything");
    let findings = [
        (FenSyntaxError::InvalidFen, "invalid fen"),
        (FenSyntaxError::InvalidBoard, "invalid board part in fen"),
        (FenSyntaxError::InvalidPocket, "invalid pocket in fen"),
        (FenSyntaxError::InvalidTurn, "invalid turn part in fen"),
        (FenSyntaxError::InvalidCastling, "invalid castling part in fen"),
        (FenSyntaxError::InvalidEpSquare, "invalid ep square in fen"),
        (FenSyntaxError::InvalidRemainingChecks, "invalid remaining checks in fen"),
        (FenSyntaxError::InvalidHalfmoveClock, "invalid halfmove clock in fen"),
        (FenSyntaxError::InvalidFullmoves, "invalid fullmove part in fen"),
    ];
    for (finding, words) in findings {
        assert_eq!(finding.description(), words);
        match conclude_validation(String::from("x y z"), Some(finding)) {
            Err(FenError::Syntax { reason, corrected }) => {
                assert_eq!(reason, finding);
                assert_eq!(corrected, "x y z");
            }
            other => panic!("got {:?}", other),
        }
    }
}
