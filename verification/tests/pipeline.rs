use zugzwang::classify::{classify_board, PieceTemplate, TemplateSet};
use zugzwang::locate::LocateError;
use zugzwang::notation::{parse_placement, InvalidPosition, SquareLabel};
use zugzwang::ocr::{board_to_fen, read_board, NativeError};
use zugzwang::raster::RasterImage;
use zugzwang::segment::segment;
use zugzwang::PlayerSide;

const PIECES: [SquareLabel; 12] = [
    SquareLabel::WhitePawn,
    SquareLabel::WhiteKnight,
    SquareLabel::WhiteBishop,
    SquareLabel::WhiteRook,
    SquareLabel::WhiteQueen,
    SquareLabel::WhiteKing,
    SquareLabel::BlackPawn,
    SquareLabel::BlackKnight,
    SquareLabel::BlackBishop,
    SquareLabel::BlackRook,
    SquareLabel::BlackQueen,
    SquareLabel::BlackKing,
];

const GROUND: u8 = 150;

/// A piece drawn on a square of 25 by 25 pixels: a frame of ground, and
/// inside it nine blocks of which some are dark and some are bright.
fn glyph(piece: usize, x: u32, y: u32) -> u8 {
    if x < 5 || x >= 20 || y < 5 || y >= 20 {
        return GROUND;
    }
    let block = ((y - 5) / 5) * 3 + (x - 5) / 5;
    let code = piece as u32 + 3;
    if block == 4 {
        0
    } else if block < 4 && (code >> block) & 1 == 1 {
        255
    } else if block > 4 {
        if piece < 6 {
            255
        } else {
            0
        }
    } else {
        GROUND
    }
}

fn raster(width: u32, height: u32, value: impl Fn(u32, u32) -> u8) -> RasterImage {
    let mut data = Vec::new();
    for y in 0..height {
        for x in 0..width {
            let v = value(x, y);
            data.extend([v, v, v]);
        }
    }
    RasterImage::new(width, height, data).unwrap()
}

fn templates() -> TemplateSet {
    let raw = PIECES
        .iter()
        .enumerate()
        .map(|(k, &label)| PieceTemplate { label, image: raster(25, 25, |x, y| glyph(k, x, y)) })
        .collect();
    TemplateSet::load(raw).unwrap()
}

fn piece_index(label: SquareLabel) -> Option<usize> {
    PIECES.iter().position(|&piece| piece == label)
}

/// A screenshot that shows nothing but the board of a position, each
/// square 25 pixels wide.
fn screenshot(placement: &str) -> RasterImage {
    let grid = parse_placement(placement).unwrap();
    raster(200, 200, |x, y| {
        match piece_index(grid.get((y / 25) as usize, (x / 25) as usize)) {
            Some(piece) => glyph(piece, x % 25, y % 25),
            None => GROUND,
        }
    })
}

#[test]
fn starting_position_is_recognized() {
    let image = screenshot("rnbqkbnr/pppppppp/8/8/8/8/PPPPPPPP/RNBQKBNR");
    let outcome = board_to_fen(&image, &templates(), PlayerSide::White).unwrap();
    assert_eq!(outcome, "rnbqkbnr/pppppppp/8/8/8/8/PPPPPPPP/RNBQKBNR w KQkq - 0 1");
    let placement = outcome.split(' ').next().unwrap();
    assert_eq!(placement, "rnbqkbnr/pppppppp/8/8/8/8/PPPPPPPP/RNBQKBNR");
}

#[test]
fn side_to_move_is_the_one_supplied() {
    let image = screenshot("rnbqkbnr/pppppppp/8/8/4P3/8/PPPP1PPP/RNBQKBNR");
    assert_eq!(
        board_to_fen(&image, &templates(), PlayerSide::Black).unwrap(),
        "rnbqkbnr/pppppppp/8/8/4P3/8/PPPP1PPP/RNBQKBNR b KQkq - 0 1"
    );
}

#[test]
fn every_square_is_read_off_the_board() {
    let placement = "r4rk1/pp1p1ppp/1n6/2p5/3P2N1/3P1N2/PPPBP1PP/R2QKB1R";
    let image = screenshot(placement);
    let grid = read_board(&image, &templates()).unwrap();
    assert_eq!(grid, parse_placement(placement).unwrap());
    assert_eq!(classify_board(&segment(&image), &templates()), grid);
    assert_eq!(
        board_to_fen(&image, &templates(), PlayerSide::White).unwrap(),
        "r4rk1/pp1p1ppp/1n6/2p5/3P2N1/3P1N2/PPPBP1PP/R2QKB1R w KQ - 0 1"
    );
}

#[test]
fn blank_screenshot_shows_no_board() {
    let blank = raster(640, 480, |_, _| 128);
    assert_eq!(
        board_to_fen(&blank, &templates(), PlayerSide::White),
        Err(NativeError::Locate(LocateError::NotFound))
    );
    assert_eq!(read_board(&blank, &templates()), Err(LocateError::NotFound));
    assert_eq!(
        NativeError::Locate(LocateError::NotFound).message(),
        "No chessboard found in the screenshot"
    );
    assert_eq!(
        NativeError::Locate(LocateError::MalformedCrop).message(),
        "The board region is too small or outside the screenshot"
    );
}

#[test]
fn board_with_two_kings_of_a_colour_is_no_position() {
    let image = screenshot("k6k/8/8/8/8/8/PPPPPPPP/R3K2R");
    let error = board_to_fen(&image, &templates(), PlayerSide::White).unwrap_err();
    assert_eq!(
        error,
        NativeError::Position(InvalidPosition::TooManyKings { white: 1, black: 2 })
    );
    assert_eq!(
        error.message(),
        "Invalid position: 1 white kings and 2 black kings on the board"
    );
}
