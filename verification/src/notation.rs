//! From a grid of recognized squares to a position string, and from the
//! placement field of a position string back to the grid.

use crate::fen::{
    castling_field, castling_of, digit_value, expand_rank, expand_symbol, expanded_rank,
    fen_syntax_fault, syntax_fault, FenSyntaxError,
};
use crate::text::{
    chars_of, count_char, count_of, decimal, digit_char, lemma_run_len_is, push_chars,
    push_decimal, split_at_char, split_on, views, CharClass,
};
use crate::vision::turn_text;
use crate::PlayerSide;
use vstd::prelude::*;
use vstd::string::*;

verus! {

/// What stands on a square.
#[derive(Clone, Copy, Debug, PartialEq, Eq, Structural)]
pub enum SquareLabel {
    Empty,
    WhitePawn,
    WhiteKnight,
    WhiteBishop,
    WhiteRook,
    WhiteQueen,
    WhiteKing,
    BlackPawn,
    BlackKnight,
    BlackBishop,
    BlackRook,
    BlackQueen,
    BlackKing,
}

/// The labels of the 64 squares, by rank and file: rank 0 is the top row
/// of the board image, file 0 its left column.
#[derive(Clone, Copy, Debug, PartialEq, Eq)]
pub struct BoardGrid {
    pub squares: [[SquareLabel; 8]; 8],
}

/// Why a grid is not assembled into a position string.
#[derive(Clone, Copy, Debug, PartialEq, Eq, Structural)]
pub enum InvalidPosition {
    /// More than one king of a colour.
    TooManyKings { white: usize, black: usize },
    /// The assembled string is not a FEN.
    Syntax(FenSyntaxError),
}

/// Whether `c` is the letter of a piece.
pub open spec fn is_piece_symbol(c: char) -> bool {
    ||| c == 'P'
    ||| c == 'N'
    ||| c == 'B'
    ||| c == 'R'
    ||| c == 'Q'
    ||| c == 'K'
    ||| c == 'p'
    ||| c == 'n'
    ||| c == 'b'
    ||| c == 'r'
    ||| c == 'q'
    ||| c == 'k'
}

/// Whether `c` may stand in a rank of a placement field: the letter of a
/// piece, or a digit from 1 to 8.
pub open spec fn is_rank_symbol(c: char) -> bool {
    is_piece_symbol(c) || '1' <= c <= '8'
}

/// Whether `c` stands for a square: a dot, or the letter of a piece.
pub open spec fn is_square_symbol(c: char) -> bool {
    is_piece_symbol(c) || c == '.'
}

impl SquareLabel {
    /// The letter of the piece, upper case for White; a dot for an empty
    /// square.
    pub open spec fn symbol(self) -> char {
        match self {
            SquareLabel::Empty => '.',
            SquareLabel::WhitePawn => 'P',
            SquareLabel::WhiteKnight => 'N',
            SquareLabel::WhiteBishop => 'B',
            SquareLabel::WhiteRook => 'R',
            SquareLabel::WhiteQueen => 'Q',
            SquareLabel::WhiteKing => 'K',
            SquareLabel::BlackPawn => 'p',
            SquareLabel::BlackKnight => 'n',
            SquareLabel::BlackBishop => 'b',
            SquareLabel::BlackRook => 'r',
            SquareLabel::BlackQueen => 'q',
            SquareLabel::BlackKing => 'k',
        }
    }

    /// The letter of the piece, upper case for White; a dot for an empty
    /// square.
    pub fn to_symbol(&self) -> (c: char)
        ensures
            c == self.symbol(),
            is_square_symbol(c),
    {
        match self {
            SquareLabel::Empty => '.',
            SquareLabel::WhitePawn => 'P',
            SquareLabel::WhiteKnight => 'N',
            SquareLabel::WhiteBishop => 'B',
            SquareLabel::WhiteRook => 'R',
            SquareLabel::WhiteQueen => 'Q',
            SquareLabel::WhiteKing => 'K',
            SquareLabel::BlackPawn => 'p',
            SquareLabel::BlackKnight => 'n',
            SquareLabel::BlackBishop => 'b',
            SquareLabel::BlackRook => 'r',
            SquareLabel::BlackQueen => 'q',
            SquareLabel::BlackKing => 'k',
        }
    }

    /// The label that a symbol stands for, if it is a dot or the letter
    /// of a piece.
    pub fn from_symbol(c: char) -> (label: Option<SquareLabel>)
        ensures
            match label {
                Some(found) => found.symbol() == c,
                None => !is_square_symbol(c),
            },
    {
        if c == '.' {
            Some(SquareLabel::Empty)
        } else if c == 'P' {
            Some(SquareLabel::WhitePawn)
        } else if c == 'N' {
            Some(SquareLabel::WhiteKnight)
        } else if c == 'B' {
            Some(SquareLabel::WhiteBishop)
        } else if c == 'R' {
            Some(SquareLabel::WhiteRook)
        } else if c == 'Q' {
            Some(SquareLabel::WhiteQueen)
        } else if c == 'K' {
            Some(SquareLabel::WhiteKing)
        } else if c == 'p' {
            Some(SquareLabel::BlackPawn)
        } else if c == 'n' {
            Some(SquareLabel::BlackKnight)
        } else if c == 'b' {
            Some(SquareLabel::BlackBishop)
        } else if c == 'r' {
            Some(SquareLabel::BlackRook)
        } else if c == 'q' {
            Some(SquareLabel::BlackQueen)
        } else if c == 'k' {
            Some(SquareLabel::BlackKing)
        } else {
            None
        }
    }
}

impl BoardGrid {
    /// The label of the square on the given rank and file.
    pub open spec fn at(self, rank: int, file: int) -> SquareLabel {
        self.squares@[rank]@[file]
    }

    /// A rank written out: one symbol for each of its eight squares.
    pub open spec fn row(self, rank: int) -> Seq<char> {
        Seq::new(8, |file: int| self.at(rank, file).symbol())
    }

    /// The grid of an empty board.
    pub fn empty() -> (grid: BoardGrid)
        ensures
            forall|r: int, f: int| 0 <= r < 8 && 0 <= f < 8 ==> grid.at(r, f) == SquareLabel::Empty,
    {
        BoardGrid { squares: [[SquareLabel::Empty; 8]; 8] }
    }

    /// The label of the square on the given rank and file.
    pub fn get(&self, rank: usize, file: usize) -> (label: SquareLabel)
        requires
            rank < 8,
            file < 8,
        ensures
            label == self.at(rank as int, file as int),
    {
        self.squares[rank][file]
    }

    /// Puts a label on the square on the given rank and file.
    pub fn set(&mut self, rank: usize, file: usize, label: SquareLabel)
        requires
            rank < 8,
            file < 8,
        ensures
            final(self).at(rank as int, file as int) == label,
            forall|r: int, f: int|
                0 <= r < 8 && 0 <= f < 8 && (r != rank || f != file) ==> final(self).at(r, f) == old(
                    self,
                ).at(r, f),
    {
        let mut row = self.squares[rank];
        row[file] = label;
        self.squares[rank] = row;
    }
}

/// The digit for a run of empty squares; nothing for no run.
pub open spec fn run_digits(run: nat) -> Seq<char> {
    if run == 0 {
        Seq::empty()
    } else {
        seq![digit_char(run as int)]
    }
}

/// A written-out rank read from the left: what is settled of its
/// encoding, and how many empty squares are still to be counted in.
pub open spec fn scan_row(row: Seq<char>) -> (Seq<char>, nat)
    decreases row.len(),
{
    if row.len() == 0 {
        (Seq::empty(), 0)
    } else {
        let (text, run) = scan_row(row.drop_last());
        if row.last() == '.' {
            (text, run + 1)
        } else {
            (text + run_digits(run) + seq![row.last()], 0)
        }
    }
}

/// A written-out rank with each run of empty squares as one digit.
pub open spec fn encode_row(row: Seq<char>) -> Seq<char> {
    scan_row(row).0 + run_digits(scan_row(row).1)
}

/// `parts` in a row, with `sep` between one and the next.
pub open spec fn join(parts: Seq<Seq<char>>, sep: char) -> Seq<char>
    decreases parts.len(),
{
    if parts.len() == 0 {
        Seq::empty()
    } else if parts.len() == 1 {
        parts[0]
    } else {
        parts[0] + seq![sep] + join(parts.drop_first(), sep)
    }
}

/// The eight ranks of a grid, encoded, from the top.
pub open spec fn encoded_rows(grid: BoardGrid) -> Seq<Seq<char>> {
    Seq::new(8, |rank: int| encode_row(grid.row(rank)))
}

/// The placement field of a grid: its ranks from the top, encoded, with
/// slashes between them.
pub open spec fn placement(grid: BoardGrid) -> Seq<char> {
    join(encoded_rows(grid), '/')
}

/// Whether `rank` is a rank of a placement field: letters of pieces and
/// digits from 1 to 8 that make up eight squares.
pub open spec fn rank_ok(rank: Seq<char>) -> bool {
    &&& forall|i: int| 0 <= i < rank.len() ==> is_rank_symbol(#[trigger] rank[i])
    &&& expand_rank(rank).len() == 8
}

/// Whether `text` is a placement field: eight ranks between slashes.
pub open spec fn placement_ok(text: Seq<char>) -> bool {
    let ranks = split_on(text, '/');
    &&& ranks.len() == 8
    &&& forall|r: int| 0 <= r < 8 ==> rank_ok(#[trigger] ranks[r])
}

/// Whether the placement field `text` shows, square by square, what
/// `grid` holds.
pub open spec fn reads_as(text: Seq<char>, grid: BoardGrid) -> bool {
    let ranks = split_on(text, '/');
    forall|r: int, f: int|
        0 <= r < 8 && 0 <= f < 8 ==> (#[trigger] grid.at(r, f)).symbol() == expand_rank(ranks[r])[f]
}

/// The symbols of all squares, rank by rank from the top.
pub open spec fn squares_text(grid: BoardGrid) -> Seq<char> {
    Seq::new(64, |i: int| grid.at(i / 8, i % 8).symbol())
}

/// What the kings on the board rule out, if anything: there may be at
/// most one of each colour.
pub open spec fn king_fault(grid: BoardGrid) -> Option<InvalidPosition> {
    let white = count_of(squares_text(grid), 'K');
    let black = count_of(squares_text(grid), 'k');
    if white > 1 || black > 1 {
        Some(InvalidPosition::TooManyKings { white: white as usize, black: black as usize })
    } else {
        None
    }
}

/// The position string of a grid: placement, the side to move, the
/// castling rights that the home squares allow, and fixed last fields.
pub open spec fn position_text(grid: BoardGrid, side: PlayerSide) -> Seq<char> {
    placement(grid) + " "@ + turn_text(side) + " "@ + castling_field(grid.row(7), grid.row(0))
        + " - 0 1"@
}

/// What a position string and the parser's finding amount to.
pub open spec fn concluded_position(text: Seq<char>, fault: Option<FenSyntaxError>) -> Result<
    Seq<char>,
    InvalidPosition,
> {
    match fault {
        None => Ok(text),
        Some(reason) => Err(InvalidPosition::Syntax(reason)),
    }
}

/// The outcome of assembling a grid, given what the parser finds in the
/// position string.
pub open spec fn assembled(
    grid: BoardGrid,
    side: PlayerSide,
    fault: Option<FenSyntaxError>,
) -> Result<Seq<char>, InvalidPosition> {
    match king_fault(grid) {
        Some(bad) => Err(bad),
        None => concluded_position(position_text(grid, side), fault),
    }
}

/// Whether `outcome` is `expected`, the string taken as a sequence.
pub open spec fn position_is(
    outcome: Result<String, InvalidPosition>,
    expected: Result<Seq<char>, InvalidPosition>,
) -> bool {
    match outcome {
        Ok(text) => expected == Ok::<Seq<char>, InvalidPosition>(text@),
        Err(error) => expected == Err::<Seq<char>, InvalidPosition>(error),
    }
}

/// The message of an error.
pub open spec fn invalid_position_text(error: InvalidPosition) -> Seq<char> {
    match error {
        InvalidPosition::TooManyKings { white, black } => "Invalid position: "@ + decimal(
            white as nat,
        ) + " white kings and "@ + decimal(black as nat) + " black kings on the board"@,
        InvalidPosition::Syntax(reason) => "Invalid position: "@ + crate::fen::syntax_text(reason),
    }
}

impl InvalidPosition {
    /// The message of this error.
    pub fn message(&self) -> (text: String)
        ensures
            text@ == invalid_position_text(*self),
    {
        let mut text = "Invalid position: ".to_string();
        match self {
            InvalidPosition::TooManyKings { white, black } => {
                push_decimal(&mut text, *white as u64);
                text.append(" white kings and ");
                push_decimal(&mut text, *black as u64);
                text.append(" black kings on the board");
            },
            InvalidPosition::Syntax(reason) => {
                text.append(reason.description());
            },
        }
        text
    }
}

/// Written-out ranks expand piece by piece.
pub proof fn lemma_expand_rank_concat(a: Seq<char>, b: Seq<char>)
    ensures
        expand_rank(a + b) == expand_rank(a) + expand_rank(b),
    decreases b.len(),
{
    if b.len() == 0 {
        assert(a + b == a);
        assert(expand_rank(a) + Seq::<char>::empty() == expand_rank(a));
    } else {
        assert((a + b).drop_last() == a + b.drop_last());
        lemma_expand_rank_concat(a, b.drop_last());
        assert(expand_rank(a) + expand_rank(b.drop_last()) + expand_symbol(b.last())
            == expand_rank(a) + (expand_rank(b.drop_last()) + expand_symbol(b.last())));
    }
}

/// A single symbol expands to what it stands for.
pub proof fn lemma_expand_single(c: char)
    ensures
        expand_rank(seq![c]) == expand_symbol(c),
{
    assert(seq![c].drop_last() == Seq::<char>::empty());
    assert(seq![c].last() == c);
    assert(expand_rank(Seq::<char>::empty()) == Seq::<char>::empty());
    assert(Seq::<char>::empty() + expand_symbol(c) == expand_symbol(c));
}

/// A rank of rank symbols expands to symbols of squares.
pub proof fn lemma_expanded_squares(rank: Seq<char>)
    requires
        forall|i: int| 0 <= i < rank.len() ==> is_rank_symbol(#[trigger] rank[i]),
    ensures
        forall|i: int|
            0 <= i < expand_rank(rank).len() ==> is_square_symbol(#[trigger] expand_rank(rank)[i]),
    decreases rank.len(),
{
    if rank.len() > 0 {
        let init = rank.drop_last();
        assert forall|i: int| 0 <= i < init.len() implies is_rank_symbol(#[trigger] init[i]) by {
            assert(init[i] == rank[i]);
        }
        lemma_expanded_squares(init);
        let c = rank.last();
        assert(is_rank_symbol(c));
        assert forall|i: int| 0 <= i < expand_rank(rank).len() implies is_square_symbol(
            #[trigger] expand_rank(rank)[i],
        ) by {
            if i < expand_rank(init).len() {
                assert(expand_rank(rank)[i] == expand_rank(init)[i]);
            } else {
                assert(expand_rank(rank)[i] == expand_symbol(c)[i - expand_rank(init).len()]);
            }
        }
    }
}

/// The digit of a run expands to that many empty squares.
pub proof fn lemma_run_digits_expand(run: nat)
    requires
        run <= 9,
    ensures
        expand_rank(run_digits(run)) == Seq::new(run, |i: int| '.'),
        forall|i: int| 0 <= i < run_digits(run).len() ==> '1' <= #[trigger] run_digits(run)[i] <= '9',
{
    if run == 0 {
        assert(expand_rank(Seq::<char>::empty()) == Seq::new(0, |i: int| '.'));
    } else {
        let c = digit_char(run as int);
        assert(digit_value(c) == Some(run));
        lemma_expand_single(c);
    }
}

/// What is settled of a rank while it is read: only rank symbols, and
/// together with the empty squares still to be counted in it expands to
/// what was read.
pub proof fn lemma_scan_row(row: Seq<char>)
    requires
        row.len() <= 8,
        forall|i: int| 0 <= i < row.len() ==> is_square_symbol(#[trigger] row[i]),
    ensures
        scan_row(row).1 <= row.len(),
        forall|i: int|
            0 <= i < scan_row(row).0.len() ==> is_rank_symbol(#[trigger] scan_row(row).0[i]),
        expand_rank(scan_row(row).0) + Seq::new(scan_row(row).1, |i: int| '.') == row,
    decreases row.len(),
{
    if row.len() == 0 {
        assert(expand_rank(Seq::<char>::empty()) + Seq::new(0, |i: int| '.') == row);
    } else {
        let init = row.drop_last();
        lemma_scan_row(init);
        let (text, run) = scan_row(init);
        let dots = Seq::new(run, |i: int| '.');
        if row.last() == '.' {
            assert(expand_rank(text) + Seq::new(run + 1, |i: int| '.') == (expand_rank(text)
                + dots).push('.'));
            assert(init.push('.') == row);
        } else {
            let c = row.last();
            assert(is_square_symbol(c));
            lemma_run_digits_expand(run);
            lemma_expand_rank_concat(text, run_digits(run));
            lemma_expand_rank_concat(text + run_digits(run), seq![c]);
            lemma_expand_single(c);
            assert(digit_value(c) is None);
            assert(expand_rank(seq![c]) == seq![c]);
            let settled = text + run_digits(run) + seq![c];
            assert(expand_rank(settled) + Seq::new(0, |i: int| '.') == init.push(c));
            assert(init.push(c) == row);
            assert forall|i: int| 0 <= i < settled.len() implies is_rank_symbol(
                #[trigger] settled[i],
            ) by {
                if i < text.len() {
                    assert(settled[i] == text[i]);
                } else if i < text.len() + run_digits(run).len() {
                    assert(settled[i] == run_digits(run)[i - text.len()]);
                    assert(run <= 8);
                } else {
                    assert(settled[i] == c);
                }
            }
        }
    }
}

/// An encoded rank holds only rank symbols and expands to the rank.
pub proof fn lemma_encode_row(row: Seq<char>)
    requires
        row.len() <= 8,
        forall|i: int| 0 <= i < row.len() ==> is_square_symbol(#[trigger] row[i]),
    ensures
        forall|i: int|
            0 <= i < encode_row(row).len() ==> is_rank_symbol(#[trigger] encode_row(row)[i]),
        expand_rank(encode_row(row)) == row,
{
    lemma_scan_row(row);
    let (text, run) = scan_row(row);
    lemma_run_digits_expand(run);
    lemma_expand_rank_concat(text, run_digits(run));
    assert forall|i: int| 0 <= i < encode_row(row).len() implies is_rank_symbol(
        #[trigger] encode_row(row)[i],
    ) by {
        if i < text.len() {
            assert(encode_row(row)[i] == text[i]);
        } else {
            assert(encode_row(row)[i] == run_digits(run)[i - text.len()]);
        }
    }
}

/// Joining one more part puts the separator before it.
pub proof fn lemma_join_push(parts: Seq<Seq<char>>, last: Seq<char>, sep: char)
    ensures
        join(parts.push(last), sep) == if parts.len() == 0 {
            last
        } else {
            join(parts, sep) + seq![sep] + last
        },
    decreases parts.len(),
{
    if parts.len() == 0 {
        assert(parts.push(last)[0] == last);
    } else {
        let rest = parts.drop_first();
        assert(parts.push(last).drop_first() == rest.push(last));
        lemma_join_push(rest, last, sep);
        if rest.len() == 0 {
            assert(parts.len() == 1);
        } else {
            assert(parts[0] + seq![sep] + (join(rest, sep) + seq![sep] + last) == parts[0]
                + seq![sep] + join(rest, sep) + seq![sep] + last);
        }
    }
}

/// Parts that do not hold the separator come back when what they were
/// joined to is split.
pub proof fn lemma_split_join(parts: Seq<Seq<char>>, sep: char)
    requires
        parts.len() >= 1,
        forall|i: int, k: int|
            0 <= i < parts.len() && 0 <= k < parts[i].len() ==> #[trigger] parts[i][k] != sep,
    ensures
        split_on(join(parts, sep), sep) == parts,
    decreases parts.len(),
{
    let class = CharClass::Except(sep);
    let first = parts[0];
    if parts.len() == 1 {
        assert forall|k: int| 0 <= k < first.len() implies class.holds(#[trigger] first[k]) by {
            assert(parts[0][k] != sep);
        }
        lemma_run_len_is(first, class, first.len() as int);
        assert(seq![first] == parts);
    } else {
        let rest = parts.drop_first();
        let text = join(parts, sep);
        let n = first.len() as int;
        assert(text == first + seq![sep] + join(rest, sep));
        assert forall|k: int| 0 <= k < n implies class.holds(#[trigger] text[k]) by {
            assert(text[k] == parts[0][k]);
        }
        assert(text[n] == sep);
        lemma_run_len_is(text, class, n);
        assert(text.take(n) == first);
        assert(text.skip(n + 1) == join(rest, sep));
        assert forall|i: int, k: int| 0 <= i < rest.len() && 0 <= k < rest[i].len() implies #[trigger] rest[i][k]
            != sep by {
            assert(rest[i][k] == parts[i + 1][k]);
        }
        lemma_split_join(rest, sep);
        assert(seq![first] + rest == parts);
    }
}

/// The placement field of a grid is a placement field, and shows square
/// by square what the grid holds.
pub proof fn law_placement_reads_back(grid: BoardGrid)
    ensures
        placement_ok(placement(grid)),
        reads_as(placement(grid), grid),
{
    let rows = encoded_rows(grid);
    assert forall|r: int| 0 <= r < 8 implies (forall|i: int|
        0 <= i < rows[r].len() ==> is_rank_symbol(#[trigger] rows[r][i])) && expand_rank(rows[r])
        == grid.row(r) by {
        lemma_encode_row(grid.row(r));
    }
    assert forall|i: int, k: int| 0 <= i < rows.len() && 0 <= k < rows[i].len() implies #[trigger] rows[i][k]
        != '/' by {
        assert(is_rank_symbol(rows[i][k]));
    }
    lemma_split_join(rows, '/');
    let ranks = split_on(placement(grid), '/');
    assert(ranks == rows);
    assert forall|r: int| 0 <= r < 8 implies rank_ok(#[trigger] ranks[r]) by {
        assert(expand_rank(rows[r]) == grid.row(r));
    }
    assert forall|r: int, f: int| 0 <= r < 8 && 0 <= f < 8 implies (#[trigger] grid.at(
        r,
        f,
    )).symbol() == expand_rank(ranks[r])[f] by {
        assert(expand_rank(rows[r]) == grid.row(r));
    }
}

/// Round trip: a grid that the placement field of another reads as holds
/// the same label on every square, and is assembled to the same placement
/// field.
pub proof fn law_round_trip(grid: BoardGrid, parsed: BoardGrid)
    requires
        reads_as(placement(grid), parsed),
    ensures
        forall|r: int, f: int| 0 <= r < 8 && 0 <= f < 8 ==> parsed.at(r, f) == grid.at(r, f),
        placement(parsed) == placement(grid),
{
    law_placement_reads_back(grid);
    assert forall|r: int, f: int| 0 <= r < 8 && 0 <= f < 8 implies parsed.at(r, f) == grid.at(
        r,
        f,
    ) by {
        assert(parsed.at(r, f).symbol() == grid.at(r, f).symbol());
    }
    assert forall|r: int| 0 <= r < 8 implies parsed.row(r) == grid.row(r) by {
        assert(parsed.row(r) =~= grid.row(r));
    }
    assert(encoded_rows(parsed) =~= encoded_rows(grid));
}

/// A rank written out: one symbol for each of its eight squares.
pub fn row_symbols(grid: &BoardGrid, rank: usize) -> (row: Vec<char>)
    requires
        rank < 8,
    ensures
        row@ == grid.row(rank as int),
{
    let mut row: Vec<char> = Vec::new();
    let mut file: usize = 0;
    while file < 8
        invariant
            file <= 8,
            rank < 8,
            row@.len() == file,
            forall|f: int| 0 <= f < file ==> row@[f] == grid.at(rank as int, f).symbol(),
        decreases 8 - file,
    {
        row.push(grid.get(rank, file).to_symbol());
        file += 1;
    }
    assert(row@ =~= grid.row(rank as int));
    row
}

/// A written-out rank with each run of empty squares as one digit.
pub fn encoded_row(row: &Vec<char>) -> (text: Vec<char>)
    requires
        row.len() <= 8,
    ensures
        text@ == encode_row(row@),
{
    let mut text: Vec<char> = Vec::new();
    let mut run: u8 = 0;
    let mut i: usize = 0;
    while i < row.len()
        invariant
            i <= row.len() <= 8,
            run <= i,
            (text@, run as nat) == scan_row(row@.take(i as int)),
        decreases row.len() - i,
    {
        proof {
            assert(row@.take(i + 1).drop_last() == row@.take(i as int));
        }
        if row[i] == '.' {
            run += 1;
        } else {
            if run > 0 {
                text.push((0x30u8 + run) as char);
            }
            text.push(row[i]);
            run = 0;
            proof {
                let (settled, empty) = scan_row(row@.take(i as int));
                assert(text@ == settled + run_digits(empty) + seq![row@[i as int]]);
            }
        }
        i += 1;
    }
    assert(row@.take(row.len() as int) == row@);
    if run > 0 {
        text.push((0x30u8 + run) as char);
    }
    assert(text@ == scan_row(row@).0 + run_digits(scan_row(row@).1));
    text
}

/// The placement field of a grid.
pub fn placement_of(grid: &BoardGrid) -> (text: Vec<char>)
    ensures
        text@ == placement(*grid),
{
    let mut text: Vec<char> = Vec::new();
    let mut rank: usize = 0;
    while rank < 8
        invariant
            rank <= 8,
            text@ == join(encoded_rows(*grid).take(rank as int), '/'),
        decreases 8 - rank,
    {
        let row = row_symbols(grid, rank);
        let encoded = encoded_row(&row);
        let ghost before = text@;
        if rank > 0 {
            text.push('/');
        }
        let mut i: usize = 0;
        while i < encoded.len()
            invariant
                i <= encoded.len(),
                text@ == (if rank > 0 {
                    before + seq!['/']
                } else {
                    before
                }) + encoded@.take(i as int),
            decreases encoded.len() - i,
        {
            text.push(encoded[i]);
            i += 1;
            assert(encoded@.take(i as int) == encoded@.take(i - 1).push(encoded@[i - 1]));
        }
        proof {
            assert(encoded@.take(encoded.len() as int) == encoded@);
            let rows = encoded_rows(*grid);
            assert(rows.take(rank + 1) == rows.take(rank as int).push(encoded@));
            lemma_join_push(rows.take(rank as int), encoded@, '/');
            if rank == 0 {
                assert(before + encoded@ == encoded@);
            }
        }
        rank += 1;
    }
    assert(encoded_rows(*grid).take(8) == encoded_rows(*grid));
    text
}

/// The symbols of all squares, rank by rank from the top.
pub fn grid_symbols(grid: &BoardGrid) -> (symbols: Vec<char>)
    ensures
        symbols@ == squares_text(*grid),
{
    let mut symbols: Vec<char> = Vec::new();
    let mut i: usize = 0;
    while i < 64
        invariant
            i <= 64,
            symbols@.len() == i,
            forall|k: int| 0 <= k < i ==> symbols@[k] == grid.at(k / 8, k % 8).symbol(),
        decreases 64 - i,
    {
        symbols.push(grid.get(i / 8, i % 8).to_symbol());
        i += 1;
    }
    assert(symbols@ =~= squares_text(*grid));
    symbols
}

/// Checks that the board holds at most one king of each colour.
pub fn check_kings(grid: &BoardGrid) -> (checked: Result<(), InvalidPosition>)
    ensures
        match checked {
            Ok(_) => king_fault(*grid) is None,
            Err(error) => king_fault(*grid) == Some(error),
        },
{
    let symbols = grid_symbols(grid);
    let white = count_char(&symbols, 'K');
    let black = count_char(&symbols, 'k');
    if white > 1 || black > 1 {
        Err(InvalidPosition::TooManyKings { white, black })
    } else {
        Ok(())
    }
}

/// The position string of a grid, for the given side to move.
pub fn position_string(grid: &BoardGrid, side: PlayerSide) -> (text: String)
    ensures
        text@ == position_text(*grid, side),
{
    let placed = placement_of(grid);
    let white_back = row_symbols(grid, 7);
    let black_back = row_symbols(grid, 0);
    let castling = castling_of(&white_back, &black_back);
    let mut text = String::new();
    push_chars(&mut text, &placed);
    text.append(" ");
    match side {
        PlayerSide::White => text.append("w"),
        PlayerSide::Black => text.append("b"),
    }
    text.append(" ");
    push_chars(&mut text, &castling);
    text.append(" - 0 1");
    assert(Seq::<char>::empty() + placed@ == placed@);
    text
}

/// Accepts the position string where the parser found nothing wrong with
/// it, and reports the parser's finding otherwise.
pub fn conclude_assembly(text: String, fault: Option<FenSyntaxError>) -> (outcome: Result<
    String,
    InvalidPosition,
>)
    ensures
        position_is(outcome, concluded_position(text@, fault)),
{
    match fault {
        None => Ok(text),
        Some(reason) => Err(InvalidPosition::Syntax(reason)),
    }
}

/// Assembles a grid into a position string: the ranks from the top, each
/// run of empty squares as a digit; the side to move as given; the
/// castling rights that kings and rooks on their home squares allow. A
/// grid with more than one king of a colour is refused, and so is a
/// string that the parser does not accept.
pub fn assemble(grid: &BoardGrid, side: PlayerSide) -> (outcome: Result<String, InvalidPosition>)
    ensures
        position_is(
            outcome,
            assembled(*grid, side, fen_syntax_fault(position_text(*grid, side))),
        ),
        king_fault(*grid) is Some ==> outcome is Err,
        outcome matches Ok(text) ==> text@ == position_text(*grid, side),
{
    match check_kings(grid) {
        Err(error) => Err(error),
        Ok(_) => {
            let text = position_string(grid, side);
            let fault = syntax_fault(text.as_str());
            conclude_assembly(text, fault)
        },
    }
}

/// Whether every symbol of `rank` is the letter of a piece or a digit
/// from 1 to 8.
fn rank_symbols_ok(rank: &Vec<char>) -> (ok: bool)
    ensures
        ok == (forall|i: int| 0 <= i < rank@.len() ==> is_rank_symbol(#[trigger] rank@[i])),
{
    let mut i: usize = 0;
    while i < rank.len()
        invariant
            i <= rank.len(),
            forall|k: int| 0 <= k < i ==> is_rank_symbol(#[trigger] rank@[k]),
        decreases rank.len() - i,
    {
        let c = rank[i];
        if !(('1' <= c && c <= '8') || SquareLabel::from_symbol(c).is_some() && c != '.') {
            assert(!is_rank_symbol(rank@[i as int]));
            return false;
        }
        i += 1;
    }
    true
}

/// Reads a placement field: eight ranks between slashes, each of letters
/// of pieces and digits from 1 to 8 that make up eight squares. Anything
/// else is no placement field.
pub fn parse_placement(text: &str) -> (parsed: Option<BoardGrid>)
    ensures
        parsed is Some <==> placement_ok(text@),
        parsed matches Some(grid) ==> reads_as(text@, grid),
{
    let chars = chars_of(text);
    let ranks = split_at_char(&chars, '/');
    if ranks.len() != 8 {
        return None;
    }
    let mut grid = BoardGrid::empty();
    let mut r: usize = 0;
    while r < 8
        invariant
            r <= 8,
            ranks@.len() == 8,
            views(ranks@) == split_on(text@, '/'),
            forall|k: int| 0 <= k < r ==> rank_ok(#[trigger] split_on(text@, '/')[k]),
            forall|k: int, f: int|
                0 <= k < r && 0 <= f < 8 ==> (#[trigger] grid.at(k, f)).symbol() == expand_rank(
                    split_on(text@, '/')[k],
                )[f],
        decreases 8 - r,
    {
        let rank = &ranks[r];
        assert(views(ranks@)[r as int] == rank@);
        if !rank_symbols_ok(rank) {
            assert(!rank_ok(split_on(text@, '/')[r as int]));
            return None;
        }
        let row = expanded_rank(rank);
        if row.len() != 8 {
            assert(!rank_ok(split_on(text@, '/')[r as int]));
            return None;
        }
        proof {
            lemma_expanded_squares(rank@);
        }
        let mut f: usize = 0;
        while f < 8
            invariant
                f <= 8,
                r < 8,
                row@.len() == 8,
                split_on(text@, '/').len() == 8,
                row@ == expand_rank(split_on(text@, '/')[r as int]),
                forall|i: int| 0 <= i < 8 ==> is_square_symbol(#[trigger] row@[i]),
                forall|k: int, g: int|
                    0 <= k < r && 0 <= g < 8 ==> (#[trigger] grid.at(k, g)).symbol() == expand_rank(
                        split_on(text@, '/')[k],
                    )[g],
                forall|g: int| 0 <= g < f ==> (#[trigger] grid.at(r as int, g)).symbol() == row@[g],
            decreases 8 - f,
        {
            match SquareLabel::from_symbol(row[f]) {
                Some(label) => {
                    grid.set(r, f, label);
                },
                None => {
                    assert(is_square_symbol(row@[f as int]));
                },
            }
            f += 1;
        }
        r += 1;
    }
    Some(grid)
}

} // verus!
