//! Cutting a board into its 64 squares.

use crate::raster::{
    crop_rows, intensity_rows, is_grid, scaled_rows, GrayImage, RasterImage, Rgb, MAX_SIDE,
};
use vstd::prelude::*;

verus! {

/// The side of a board brought to its normal size, in pixels.
pub const BOARD_SIZE: u32 = 512;

/// The side of a square of such a board, in pixels.
pub const CELL_SIZE: u32 = 64;

/// The 64 squares of a board as intensity images, rank by rank from the
/// top and in each rank from the left.
#[derive(Debug)]
pub struct Squares {
    cells: Vec<GrayImage>,
}

/// The square on the given rank and file of a board of normal size.
pub open spec fn cell_rows(board: Seq<Seq<u8>>, rank: int, file: int) -> Seq<Seq<u8>> {
    crop_rows(board, file * CELL_SIZE, rank * CELL_SIZE, CELL_SIZE as int, CELL_SIZE as int)
}

/// The 64 squares of a board of normal size, rank by rank from the top
/// and in each rank from the left.
pub open spec fn board_cells(board: Seq<Seq<u8>>) -> Seq<Seq<Seq<u8>>> {
    Seq::new(64, |k: int| cell_rows(board, k / 8, k % 8))
}

/// A board brought to its normal size and turned into intensities.
pub open spec fn normalized(board: Seq<Seq<Rgb>>, width: int) -> Seq<Seq<u8>> {
    intensity_rows(scaled_rows(board, width, BOARD_SIZE as int, BOARD_SIZE as int))
}

impl View for Squares {
    type V = Seq<Seq<Seq<u8>>>;

    closed spec fn view(&self) -> Seq<Seq<Seq<u8>>> {
        self.cells@.map_values(|cell: GrayImage| cell@)
    }
}

impl Squares {
    /// There are 64 squares, each of the size of a square.
    pub open spec fn wf(&self) -> bool {
        &&& self@.len() == 64
        &&& forall|k: int|
            0 <= k < 64 ==> is_grid(#[trigger] self@[k], CELL_SIZE as int, CELL_SIZE as int)
    }

    #[verifier::type_invariant]
    closed spec fn inv(&self) -> bool {
        &&& self.cells@.len() == 64
        &&& forall|k: int|
            0 <= k < 64 ==> {
                &&& (#[trigger] self.cells@[k]).wf()
                &&& self.cells@[k].spec_width() == CELL_SIZE
                &&& self.cells@[k].spec_height() == CELL_SIZE
            }
    }

    /// The square on the given rank and file.
    pub fn cell(&self, rank: usize, file: usize) -> (square: &GrayImage)
        requires
            rank < 8,
            file < 8,
        ensures
            square@ == self@[rank * 8 + file],
            square.wf(),
            square.spec_width() == CELL_SIZE,
            square.spec_height() == CELL_SIZE,
            self.wf(),
    {
        proof {
            use_type_invariant(self);
            assert forall|k: int| 0 <= k < 64 implies is_grid(
                #[trigger] self@[k],
                CELL_SIZE as int,
                CELL_SIZE as int,
            ) by {
                assert(self.cells@[k].wf());
            }
        }
        &self.cells[rank * 8 + file]
    }
}

/// Cuts a board of normal size into its squares.
pub fn slice_board(board: &GrayImage) -> (squares: Squares)
    requires
        board.spec_width() == BOARD_SIZE,
        board.spec_height() == BOARD_SIZE,
    ensures
        squares.wf(),
        squares@ == board_cells(board@),
{
    let mut cells: Vec<GrayImage> = Vec::new();
    let mut k: usize = 0;
    while k < 64
        invariant
            k <= 64,
            board.spec_width() == BOARD_SIZE,
            board.spec_height() == BOARD_SIZE,
            cells@.len() == k,
            forall|i: int|
                0 <= i < k ==> {
                    &&& (#[trigger] cells@[i]).wf()
                    &&& cells@[i].spec_width() == CELL_SIZE
                    &&& cells@[i].spec_height() == CELL_SIZE
                    &&& cells@[i]@ == cell_rows(board@, i / 8, i % 8)
                },
        decreases 64 - k,
    {
        let rank = (k / 8) as u32;
        let file = (k % 8) as u32;
        let cell = board.crop(file * CELL_SIZE, rank * CELL_SIZE, CELL_SIZE, CELL_SIZE);
        cells.push(cell);
        k += 1;
    }
    let squares = Squares { cells };
    proof {
        assert(squares@ =~= board_cells(board@));
        assert forall|i: int| 0 <= i < 64 implies is_grid(
            #[trigger] squares@[i],
            CELL_SIZE as int,
            CELL_SIZE as int,
        ) by {
            assert(squares.cells@[i].wf());
        }
    }
    squares
}

/// Cuts a board into its squares: the image is brought to normal size,
/// turned into intensities, and cut into eight ranks of eight squares,
/// rank 0 at the top and file 0 at the left.
pub fn segment(board: &RasterImage) -> (squares: Squares)
    ensures
        squares.wf(),
        squares@ == board_cells(normalized(board@, board.spec_width() as int)),
{
    let scaled = board.scaled_to(BOARD_SIZE, BOARD_SIZE);
    let gray = scaled.to_intensity();
    slice_board(&gray)
}

/// Each pixel of a square is one pixel of the board: the square on rank
/// `rank` and file `file` shows at `(i, j)` what the board shows at
/// `(file * 64 + i, rank * 64 + j)`.
pub proof fn law_square_shows_board(board: Seq<Seq<u8>>, rank: int, file: int, i: int, j: int)
    requires
        0 <= rank < 8,
        0 <= file < 8,
        0 <= i < CELL_SIZE,
        0 <= j < CELL_SIZE,
    ensures
        board_cells(board).len() == 64,
        is_grid(board_cells(board)[rank * 8 + file], CELL_SIZE as int, CELL_SIZE as int),
        board_cells(board)[rank * 8 + file][j][i] == board[rank * CELL_SIZE + j][file * CELL_SIZE
            + i],
{
    let k = rank * 8 + file;
    assert(k / 8 == rank && k % 8 == file);
}

/// The squares do not overlap: two pixels of squares that show the same
/// pixel of the board are the same pixel of the same square.
pub proof fn law_squares_do_not_overlap(
    rank: int,
    file: int,
    i: int,
    j: int,
    other_rank: int,
    other_file: int,
    other_i: int,
    other_j: int,
)
    requires
        0 <= rank < 8 && 0 <= file < 8 && 0 <= i < CELL_SIZE && 0 <= j < CELL_SIZE,
        0 <= other_rank < 8 && 0 <= other_file < 8 && 0 <= other_i < CELL_SIZE && 0 <= other_j
            < CELL_SIZE,
        file * CELL_SIZE + i == other_file * CELL_SIZE + other_i,
        rank * CELL_SIZE + j == other_rank * CELL_SIZE + other_j,
    ensures
        rank == other_rank,
        file == other_file,
        i == other_i,
        j == other_j,
{
}

/// The squares cover the board: every pixel of a board of normal size is
/// shown by the square on rank `y / 64` and file `x / 64`.
pub proof fn law_squares_cover_board(board: Seq<Seq<u8>>, x: int, y: int)
    requires
        0 <= x < BOARD_SIZE,
        0 <= y < BOARD_SIZE,
    ensures
        0 <= y / 64 < 8,
        0 <= x / 64 < 8,
        board_cells(board)[(y / 64) * 8 + x / 64][y % 64][x % 64] == board[y][x],
{
    law_square_shows_board(board, y / 64, x / 64, x % 64, y % 64);
}

} // verus!
