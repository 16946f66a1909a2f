use zugzwang::fen::FenSyntaxError;
use zugzwang::notation::{
    assemble, check_kings, conclude_assembly, encoded_row, parse_placement, placement_of,
    position_string, row_symbols, BoardGrid, InvalidPosition, SquareLabel,
};
use zugzwang::PlayerSide;

const START: &str = "rnbqkbnr/pppppppp/8/8/8/8/PPPPPPPP/RNBQKBNR";

fn text(chars: Vec<char>) -> String {
    chars.into_iter().collect()
}

#[test]
fn labels_have_their_symbols() {
    let all = [
        (SquareLabel::Empty, '.'),
        (SquareLabel::WhitePawn, 'P'),
        (SquareLabel::WhiteKnight, 'N'),
        (SquareLabel::WhiteBishop, 'B'),
        (SquareLabel::WhiteRook, 'R'),
        (SquareLabel::WhiteQueen, 'Q'),
        (SquareLabel::WhiteKing, 'K'),
        (SquareLabel::BlackPawn, 'p'),
        (SquareLabel::BlackKnight, 'n'),
        (SquareLabel::BlackBishop, 'b'),
        (SquareLabel::BlackRook, 'r'),
        (SquareLabel::BlackQueen, 'q'),
        (SquareLabel::BlackKing, 'k'),
    ];
    for (label, symbol) in all {
        assert_eq!(label.to_symbol(), symbol);
        assert_eq!(SquareLabel::from_symbol(symbol), Some(label));
    }
    for other in ['x', '1', '8', '/', ' ', 'A', '\u{e9}'] {
        assert_eq!(SquareLabel::from_symbol(other), None);
    }
}

#[test]
fn starting_position_is_read_and_assembled() {
    let grid = parse_placement(START).unwrap();
    assert_eq!(grid.get(0, 0), SquareLabel::BlackRook);
    assert_eq!(grid.get(0, 4), SquareLabel::BlackKing);
    assert_eq!(grid.get(1, 3), SquareLabel::BlackPawn);
    assert_eq!(grid.get(3, 3), SquareLabel::Empty);
    assert_eq!(grid.get(6, 7), SquareLabel::WhitePawn);
    assert_eq!(grid.get(7, 3), SquareLabel::WhiteQueen);
    assert_eq!(text(placement_of(&grid)), START);
    assert_eq!(
        assemble(&grid, PlayerSide::White).unwrap(),
        "rnbqkbnr/pppppppp/8/8/8/8/PPPPPPPP/RNBQKBNR w KQkq - 0 1"
    );
    assert_eq!(
        assemble(&grid, PlayerSide::Black).unwrap(),
        "rnbqkbnr/pppppppp/8/8/8/8/PPPPPPPP/RNBQKBNR b KQkq - 0 1"
    );
}

#[test]
fn placement_fields_survive_the_round_trip() {
    for placement in [
        START,
        "8/8/8/8/8/8/8/8",
        "r4rk1/pp1p1ppp/1n6/2p5/3P2N1/3P1N2/PPPBP1PP/R2QKB1R",
        "1k1r4/pp1b1R2/3q2pp/4p3/2B5/4Q3/PPP2B2/2K5",
        "p1p1p1p1/1p1p1p1p/7K/k7/3Q4/4q3/P6p/1P1P1P1P",
        "KQRBNPkq/rbnp4/8/8/8/8/8/8",
    ] {
        let grid = parse_placement(placement).unwrap();
        assert_eq!(text(placement_of(&grid)), placement);
        assert_eq!(parse_placement(&text(placement_of(&grid))), Some(grid));
    }
}

#[test]
fn grids_survive_the_round_trip() {
    let labels = [
        SquareLabel::Empty,
        SquareLabel::WhitePawn,
        SquareLabel::BlackKing,
        SquareLabel::Empty,
        SquareLabel::Empty,
        SquareLabel::WhiteQueen,
        SquareLabel::BlackKnight,
    ];
    let mut grid = BoardGrid::empty();
    let mut next = 0;
    for rank in 0..8 {
        for file in 0..8 {
            grid.set(rank, file, labels[next % labels.len()]);
            next += rank + 2 * file + 1;
        }
    }
    let written = text(placement_of(&grid));
    assert_eq!(parse_placement(&written), Some(grid));
}

#[test]
fn runs_of_empty_squares_become_digits() {
    let row = |s: &str| text(encoded_row(&s.chars().collect()));
    assert_eq!(row("........"), "8");
    assert_eq!(row("r......."), "r7");
    assert_eq!(row(".......r"), "7r");
    assert_eq!(row("r..k...r"), "r2k3r");
    assert_eq!(row(".p.p.p.p"), "1p1p1p1p");
    assert_eq!(row("rnbqkbnr"), "rnbqkbnr");
    assert_eq!(row(""), "");
    assert_eq!(row("..K"), "2K");
}

#[test]
fn what_is_no_placement_field_is_refused() {
    for bad in [
        "",
        "8/8/8/8/8/8/8",
        "8/8/8/8/8/8/8/8/8",
        "rnbqkbnr/pppppppp/8/8/8/8/PPPPPPPP/RNBQKBN",
        "rnbqkbnr/pppppppp/8/8/8/8/PPPPPPPP/RNBQKBNRR",
        "rnbqkbnr/pppppppp/9/8/8/8/PPPPPPPP/RNBQKBNR",
        "rnbqkbnr/pppppppp/08/8/8/8/PPPPPPPP/RNBQKBNR",
        "rnbqkbnr/pppppppp/7/8/8/8/PPPPPPPP/RNBQKBNR",
        "rnbqkbnr/pppppppp/8/8/8/8/PPPPPPPP/RNBQKBNX",
        "rnbqkbnr/pppppppp/......../8/8/8/PPPPPPPP/RNBQKBNR",
        "rnbqkbnr/pppppppp/8/8/8/8/PPPPPPPP/RNBQKBNR w KQkq - 0 1",
        "rnbqkbnr/pppppppp/8/8/8/8/PPPPPPPP/RNBQKBNR/",
    ] {
        assert_eq!(parse_placement(bad), None, "{:?}", bad);
    }
}

#[test]
fn digits_may_follow_each_other_when_read() {
    let grid = parse_placement("44/8/8/8/8/8/8/1111p111").unwrap();
    assert_eq!(text(placement_of(&grid)), "8/8/8/8/8/8/8/4p3");
}

#[test]
fn empty_board_has_no_castling_rights() {
    let grid = BoardGrid::empty();
    assert_eq!(assemble(&grid, PlayerSide::White).unwrap(), "8/8/8/8/8/8/8/8 w - - 0 1");
    assert_eq!(position_string(&grid, PlayerSide::Black), "8/8/8/8/8/8/8/8 b - - 0 1");
}

#[test]
fn castling_rights_follow_the_home_squares() {
    let cases = [
        ("r3k2r/8/8/8/8/8/8/R3K2R", "KQkq"),
        ("r3k2r/8/8/8/8/8/8/4K2R", "Kkq"),
        ("r3k3/8/8/8/8/8/8/R3K3", "Qq"),
        ("4k2r/8/8/8/8/8/8/R2K3R", "k"),
        ("r4rk1/8/8/8/8/8/8/R3K2R", "KQ"),
        ("3k4/8/8/8/8/8/8/3K4", "-"),
    ];
    for (placement, rights) in cases {
        let grid = parse_placement(placement).unwrap();
        assert_eq!(
            assemble(&grid, PlayerSide::White).unwrap(),
            format!("{} w {} - 0 1", placement, rights)
        );
    }
}

#[test]
fn more_than_one_king_of_a_colour_is_refused() {
    let grid = parse_placement("k6k/8/8/8/8/8/8/K7").unwrap();
    assert_eq!(
        assemble(&grid, PlayerSide::White),
        Err(InvalidPosition::TooManyKings { white: 1, black: 2 })
    );
    assert_eq!(check_kings(&grid), Err(InvalidPosition::TooManyKings { white: 1, black: 2 }));
    let grid = parse_placement("KKK5/8/8/8/8/8/8/8").unwrap();
    assert_eq!(
        assemble(&grid, PlayerSide::Black),
        Err(InvalidPosition::TooManyKings { white: 3, black: 0 })
    );
    assert_eq!(
        InvalidPosition::TooManyKings { white: 3, black: 0 }.message(),
        "Invalid position: 3 white kings and 0 black kings on the board"
    );
    let grid = parse_placement("8/8/8/8/8/8/8/K7").unwrap();
    assert_eq!(check_kings(&grid), Ok(()));
    assert!(assemble(&grid, PlayerSide::White).is_ok());
}

#[test]
fn assembly_follows_the_finding_of_the_parser() {
    assert_eq!(conclude_assembly(String::from("some text"), None).unwrap(), "some text");
    assert_eq!(
        conclude_assembly(String::from("some text"), Some(FenSyntaxError::InvalidBoard)),
        Err(InvalidPosition::Syntax(FenSyntaxError::InvalidBoard))
    );
    assert_eq!(
        InvalidPosition::Syntax(FenSyntaxError::InvalidBoard).message(),
        "Invalid position: invalid board part in fen"
    );
}

#[test]
fn ranks_are_written_out_from_the_left() {
    let grid = parse_placement("r3k2r/8/8/8/8/8/8/4K2R").unwrap();
    assert_eq!(text(row_symbols(&grid, 0)), "r...k..r");
    assert_eq!(text(row_symbols(&grid, 3)), "........");
    assert_eq!(text(row_symbols(&grid, 7)), "....K..R");
}
