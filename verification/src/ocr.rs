//! The two ways of recognizing a position, and which of them can be taken.

use crate::classify::{classified, classify_board, TemplateSet};
use crate::fen::fen_syntax_fault;
use crate::locate::{board_region, crop_board, find_board, LocateError, Region};
use crate::notation::{
    assemble, assembled, encoded_rows, king_fault, position_text, squares_text, BoardGrid,
    InvalidPosition, SquareLabel,
};
use crate::raster::{crop_rows, intensity_rows, RasterImage, Rgb};
use crate::segment::{board_cells, normalized, segment};
use crate::vision::has_api_key;
use crate::PlayerSide;
use vstd::prelude::*;

verus! {

/// Which recognition strategy produces the position string.
#[derive(Clone, Copy, Debug, PartialEq, Eq, Structural)]
pub enum OcrMode {
    /// The vision model reads the whole screenshot.
    Llm,
    /// The board is found, cut into squares and matched against templates.
    Native,
}

impl Default for OcrMode {
    fn default() -> (mode: OcrMode)
        ensures
            mode == OcrMode::Native,
    {
        OcrMode::Native
    }
}

/// The words that a mode is shown with.
pub open spec fn mode_text(mode: OcrMode) -> Seq<char> {
    match mode {
        OcrMode::Llm => "LLM (GPT-4o Mini)"@,
        OcrMode::Native => "Native (template matching)"@,
    }
}

impl OcrMode {
    /// The words that this mode is shown with.
    pub fn label(&self) -> (text: String)
        ensures
            text@ == mode_text(*self),
    {
        match self {
            OcrMode::Llm => "LLM (GPT-4o Mini)".to_string(),
            OcrMode::Native => "Native (template matching)".to_string(),
        }
    }
}

/// Whether the vision-model path can be taken: it can where a credential
/// for the service is at hand.
pub fn llm_available(credential: &Option<String>) -> (available: bool)
    ensures
        available == credential.is_some(),
{
    has_api_key(credential)
}

/// Why template matching gave no position.
#[derive(Clone, Copy, Debug, PartialEq, Eq, Structural)]
pub enum NativeError {
    /// No board was found in the screenshot.
    Locate(LocateError),
    /// What was read off the board is no position.
    Position(InvalidPosition),
}

/// The 64 squares of the board that a region of a screenshot shows.
pub open spec fn squares_in(screenshot: Seq<Seq<Rgb>>, region: Region) -> Seq<Seq<Seq<u8>>> {
    board_cells(
        normalized(
            crop_rows(
                screenshot,
                region.x as int,
                region.y as int,
                region.size as int,
                region.size as int,
            ),
            region.size as int,
        ),
    )
}

/// Whether a grid holds, square by square, what the templates tell of
/// the squares.
pub open spec fn grid_shows(
    grid: BoardGrid,
    squares: Seq<Seq<Seq<u8>>>,
    templates: Seq<(SquareLabel, Seq<Seq<u8>>)>,
) -> bool {
    forall|rank: int, file: int|
        0 <= rank < 8 && 0 <= file < 8 ==> #[trigger] grid.at(rank, file) == classified(
            squares[rank * 8 + file],
            templates,
        )
}

/// Whether `outcome` is what template matching makes of a screenshot:
/// no board, or the position string assembled from the grid that the
/// templates tell of the squares of the board.
pub open spec fn is_recognition(
    outcome: Result<Seq<char>, NativeError>,
    screenshot: Seq<Seq<Rgb>>,
    width: int,
    templates: Seq<(SquareLabel, Seq<Seq<u8>>)>,
    side: PlayerSide,
) -> bool {
    match board_region(intensity_rows(screenshot), width) {
        Err(error) => outcome == Err::<Seq<char>, NativeError>(NativeError::Locate(error)),
        Ok(region) => forall|grid: BoardGrid| #[trigger]
            grid_shows(grid, squares_in(screenshot, region), templates) ==> outcome == (
            match assembled(grid, side, fen_syntax_fault(position_text(grid, side))) {
                Ok(text) => Ok::<Seq<char>, NativeError>(text),
                Err(error) => Err::<Seq<char>, NativeError>(NativeError::Position(error)),
            }),
    }
}

/// The words for an error.
pub open spec fn native_error_text(error: NativeError) -> Seq<char> {
    match error {
        NativeError::Locate(LocateError::NotFound) => "No chessboard found in the screenshot"@,
        NativeError::Locate(LocateError::MalformedCrop) => "The board region is too small or outside the screenshot"@,
        NativeError::Position(invalid) => crate::notation::invalid_position_text(invalid),
    }
}

impl NativeError {
    /// The words for this error.
    pub fn message(&self) -> (text: String)
        ensures
            text@ == native_error_text(*self),
    {
        match self {
            NativeError::Locate(LocateError::NotFound) => "No chessboard found in the screenshot".to_string(),
            NativeError::Locate(LocateError::MalformedCrop) => "The board region is too small or outside the screenshot".to_string(),
            NativeError::Position(invalid) => invalid.message(),
        }
    }
}

/// Grids that hold the same label on every square are assembled to the
/// same outcome.
pub proof fn lemma_same_squares(a: BoardGrid, b: BoardGrid, side: PlayerSide)
    requires
        forall|rank: int, file: int|
            0 <= rank < 8 && 0 <= file < 8 ==> a.at(rank, file) == b.at(rank, file),
    ensures
        position_text(a, side) == position_text(b, side),
        king_fault(a) == king_fault(b),
{
    assert forall|rank: int| 0 <= rank < 8 implies a.row(rank) == b.row(rank) by {
        assert(a.row(rank) =~= b.row(rank));
    }
    assert(encoded_rows(a) =~= encoded_rows(b));
    assert(squares_text(a) =~= squares_text(b));
}

/// Reads the board off a screenshot: the board is found, cut out and cut
/// into its squares, and the templates tell what stands on each.
pub fn read_board(screenshot: &RasterImage, templates: &TemplateSet) -> (read: Result<
    BoardGrid,
    LocateError,
>)
    ensures
        match read {
            Ok(grid) => {
                &&& board_region(
                    intensity_rows(screenshot@),
                    screenshot.spec_width() as int,
                ) matches Ok(region)
                &&& grid_shows(grid, squares_in(screenshot@, region), templates@)
            },
            Err(error) => board_region(
                intensity_rows(screenshot@),
                screenshot.spec_width() as int,
            ) == Err::<Region, LocateError>(error),
        },
{
    let gray = screenshot.to_intensity();
    let region = match find_board(&gray) {
        Ok(region) => region,
        Err(error) => {
            return Err(error);
        },
    };
    let width = screenshot.width();
    match crop_board(screenshot, region) {
        Ok(board) => {
            let squares = segment(&board);
            Ok(classify_board(&squares, templates))
        },
        Err(error) => {
            assert(false);
            Err(error)
        },
    }
}

/// Recognizes the position in a screenshot by template matching, for the
/// given side to move: the board is found where edges are densest, cut
/// into its squares, each square is told by the templates, and the grid
/// is assembled into a position string.
pub fn board_to_fen(screenshot: &RasterImage, templates: &TemplateSet, side: PlayerSide) -> (outcome:
    Result<String, NativeError>)
    ensures
        match outcome {
            Ok(text) => is_recognition(
                Ok(text@),
                screenshot@,
                screenshot.spec_width() as int,
                templates@,
                side,
            ),
            Err(error) => is_recognition(
                Err(error),
                screenshot@,
                screenshot.spec_width() as int,
                templates@,
                side,
            ),
        },
{
    let grid = match read_board(screenshot, templates) {
        Ok(grid) => grid,
        Err(error) => {
            return Err(NativeError::Locate(error));
        },
    };
    let outcome = assemble(&grid, side);
    proof {
        let region = board_region(
            intensity_rows(screenshot@),
            screenshot.spec_width() as int,
        )->Ok_0;
        assert forall|other: BoardGrid| #[trigger]
            grid_shows(other, squares_in(screenshot@, region), templates@) implies position_text(
            other,
            side,
        ) == position_text(grid, side) && king_fault(other) == king_fault(grid) by {
            assert forall|rank: int, file: int| 0 <= rank < 8 && 0 <= file < 8 implies other.at(
                rank,
                file,
            ) == grid.at(rank, file) by {
                assert(other.at(rank, file) == classified(
                    squares_in(screenshot@, region)[rank * 8 + file],
                    templates@,
                ));
            }
            lemma_same_squares(other, grid, side);
        }
    }
    match outcome {
        Ok(text) => Ok(text),
        Err(error) => Err(NativeError::Position(error)),
    }
}

} // verus!
