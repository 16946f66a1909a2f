//! Telling what stands on a square: nothing, where the square is flat;
//! otherwise the piece whose template is nearest, if it is near enough.

use crate::notation::{BoardGrid, SquareLabel};
use crate::raster::{intensity_rows, is_grid, scaled_rows, GrayImage, RasterImage, Rgb, MAX_SIDE};
use crate::segment::{Squares, CELL_SIZE};
use vstd::prelude::*;

verus! {

/// The variance of the intensities below which a square is empty.
pub const EMPTY_VARIANCE: u64 = 100;

/// The greatest distance at which a template is a match, in percent of
/// the greatest distance there can be.
pub const MATCH_PERCENT: u64 = 30;

/// The square of the greatest difference between two intensities.
pub const FULL_SCALE: u64 = 65025;

/// How one piece looks: a label and a reference image.
#[derive(Debug)]
pub struct PieceTemplate {
    pub label: SquareLabel,
    pub image: RasterImage,
}

/// The reference images of all twelve pieces, each brought to the size of
/// a square and turned into intensities. Its view is the labels with the
/// rows of their images.
#[derive(Debug)]
pub struct TemplateSet {
    templates: Vec<(SquareLabel, GrayImage)>,
}

/// Why a set of templates cannot be used.
#[derive(Clone, Copy, Debug, PartialEq, Eq, Structural)]
pub enum TemplateError {
    /// A template is labelled as an empty square.
    NotAPiece,
    /// There is no template for this piece.
    Missing(SquareLabel),
}

/// The sum of a row.
pub open spec fn row_total(row: Seq<u8>) -> int
    decreases row.len(),
{
    if row.len() == 0 {
        0
    } else {
        row_total(row.drop_last()) + row.last()
    }
}

/// The sum of the squares of a row.
pub open spec fn row_squares(row: Seq<u8>) -> int
    decreases row.len(),
{
    if row.len() == 0 {
        0
    } else {
        row_squares(row.drop_last()) + row.last() * row.last()
    }
}

/// The sum of all intensities of an image.
pub open spec fn total(rows: Seq<Seq<u8>>) -> int
    decreases rows.len(),
{
    if rows.len() == 0 {
        0
    } else {
        total(rows.drop_last()) + row_total(rows.last())
    }
}

/// The sum of the squares of all intensities of an image.
pub open spec fn squares_total(rows: Seq<Seq<u8>>) -> int
    decreases rows.len(),
{
    if rows.len() == 0 {
        0
    } else {
        squares_total(rows.drop_last()) + row_squares(rows.last())
    }
}

/// How many pixels an image has.
pub open spec fn pixel_count(rows: Seq<Seq<u8>>) -> int {
    if rows.len() == 0 {
        0
    } else {
        (rows.len() * rows[0].len()) as int
    }
}

/// The variance of the intensities, times the square of the number of
/// pixels.
pub open spec fn spread(rows: Seq<Seq<u8>>) -> int {
    pixel_count(rows) * squares_total(rows) - total(rows) * total(rows)
}

/// Whether a square is flat: it has no pixels, or the variance of its
/// intensities is below `EMPTY_VARIANCE`.
pub open spec fn is_flat(rows: Seq<Seq<u8>>) -> bool {
    pixel_count(rows) == 0 || spread(rows) < EMPTY_VARIANCE * (pixel_count(rows) * pixel_count(
        rows,
    ))
}

/// The sum of the squared differences of the first `count` pixels of two
/// rows.
pub open spec fn row_distance(a: Seq<u8>, b: Seq<u8>, count: int) -> int
    decreases count,
{
    if count <= 0 {
        0
    } else {
        row_distance(a, b, count - 1) + (a[count - 1] - b[count - 1]) * (a[count - 1] - b[count
            - 1])
    }
}

/// The sum of the squared differences of the first `count` rows of two
/// images.
pub open spec fn rows_distance(a: Seq<Seq<u8>>, b: Seq<Seq<u8>>, count: int) -> int
    decreases count,
{
    if count <= 0 {
        0
    } else {
        rows_distance(a, b, count - 1) + row_distance(
            a[count - 1],
            b[count - 1],
            a[count - 1].len() as int,
        )
    }
}

/// The distance of two images of the same size: the sum of the squared
/// differences of their pixels.
pub open spec fn distance(a: Seq<Seq<u8>>, b: Seq<Seq<u8>>) -> int {
    rows_distance(a, b, a.len() as int)
}

/// Whether two images have the same size.
pub open spec fn same_size(a: Seq<Seq<u8>>, b: Seq<Seq<u8>>) -> bool {
    &&& a.len() == b.len()
    &&& forall|y: int| 0 <= y < a.len() ==> (#[trigger] a[y]).len() == b[y].len()
}

/// Whether a distance over so many pixels is that of a match: below
/// `MATCH_PERCENT` of what it can be at most.
pub open spec fn is_confident(distance: int, pixels: int) -> bool {
    distance * 100 < MATCH_PERCENT * (pixels * FULL_SCALE)
}

/// Whether template `k` is the nearest to the square: it has the size of
/// the square, no template of that size is nearer, and those before it
/// are farther.
pub open spec fn is_nearest(
    square: Seq<Seq<u8>>,
    templates: Seq<(SquareLabel, Seq<Seq<u8>>)>,
    k: int,
) -> bool {
    &&& 0 <= k < templates.len()
    &&& same_size(square, templates[k].1)
    &&& forall|j: int|
        0 <= j < templates.len() && same_size(square, (#[trigger] templates[j]).1) ==> {
            &&& distance(square, templates[k].1) <= distance(square, templates[j].1)
            &&& j < k ==> distance(square, templates[k].1) < distance(square, templates[j].1)
        }
}

/// The template nearest to the square, if any has its size.
pub open spec fn nearest(
    square: Seq<Seq<u8>>,
    templates: Seq<(SquareLabel, Seq<Seq<u8>>)>,
) -> Option<int> {
    if exists|k: int| is_nearest(square, templates, k) {
        Some(choose|k: int| is_nearest(square, templates, k))
    } else {
        None
    }
}

/// What stands on a square: nothing, where the square is flat or no
/// template is a match; otherwise the piece of the nearest template.
pub open spec fn classified(
    square: Seq<Seq<u8>>,
    templates: Seq<(SquareLabel, Seq<Seq<u8>>)>,
) -> SquareLabel {
    if is_flat(square) {
        SquareLabel::Empty
    } else {
        match nearest(square, templates) {
            Some(k) => if is_confident(distance(square, templates[k].1), pixel_count(square)) {
                templates[k].0
            } else {
                SquareLabel::Empty
            },
            None => SquareLabel::Empty,
        }
    }
}

/// A reference image brought to the size of a square and turned into
/// intensities.
pub open spec fn prepared(image: Seq<Seq<Rgb>>, width: int) -> Seq<Seq<u8>> {
    intensity_rows(scaled_rows(image, width, CELL_SIZE as int, CELL_SIZE as int))
}

/// The twelve pieces, in the order in which templates are asked for.
pub open spec fn pieces() -> Seq<SquareLabel> {
    seq![
        SquareLabel::WhitePawn,
        SquareLabel::WhiteKnight,
        SquareLabel::WhiteBishop,
        SquareLabel::WhiteRook,
        SquareLabel::WhiteQueen,
        SquareLabel::WhiteKing,
        SquareLabel::BlackPawn,
        SquareLabel::BlackKnight,
        SquareLabel::BlackBishop,
        SquareLabel::BlackRook,
        SquareLabel::BlackQueen,
        SquareLabel::BlackKing,
    ]
}

/// The first of the pieces from `from` on that has no template.
pub open spec fn first_missing(labels: Seq<SquareLabel>, from: int) -> Option<SquareLabel>
    decreases 12 - from,
{
    if from < 0 || from >= 12 {
        None
    } else if !labels.contains(pieces()[from]) {
        Some(pieces()[from])
    } else {
        first_missing(labels, from + 1)
    }
}

/// What is wrong with a set of templates, if anything: none may be
/// labelled as an empty square, and every piece must have one.
pub open spec fn template_fault(labels: Seq<SquareLabel>) -> Option<TemplateError> {
    if labels.contains(SquareLabel::Empty) {
        Some(TemplateError::NotAPiece)
    } else {
        match first_missing(labels, 0) {
            Some(piece) => Some(TemplateError::Missing(piece)),
            None => None,
        }
    }
}

/// The words for an error.
pub open spec fn template_error_text(error: TemplateError) -> Seq<char> {
    match error {
        TemplateError::NotAPiece => "A template is labelled as an empty square"@,
        TemplateError::Missing(piece) => "No template for the piece "@ + seq![piece.symbol()],
    }
}

impl TemplateError {
    /// The words for this error.
    pub fn message(&self) -> (text: String)
        ensures
            text@ == template_error_text(*self),
    {
        match self {
            TemplateError::NotAPiece => "A template is labelled as an empty square".to_string(),
            TemplateError::Missing(piece) => {
                let mut text = "No template for the piece ".to_string();
                text.push(piece.to_symbol());
                text
            },
        }
    }
}

/// The sum of a row is bounded by its length.
pub proof fn lemma_row_bounds(row: Seq<u8>)
    ensures
        0 <= row_total(row) <= 255 * row.len(),
        0 <= row_squares(row) <= 65025 * row.len(),
    decreases row.len(),
{
    if row.len() > 0 {
        lemma_row_bounds(row.drop_last());
        let v = row.last() as int;
        assert(0 <= v * v <= 65025) by (nonlinear_arith)
            requires
                0 <= v <= 255,
        ;
    }
}

/// The squared differences of a row are bounded by their number.
pub proof fn lemma_row_distance_bounds(a: Seq<u8>, b: Seq<u8>, count: int)
    requires
        0 <= count,
    ensures
        0 <= row_distance(a, b, count) <= 65025 * count,
    decreases count,
{
    if count > 0 {
        lemma_row_distance_bounds(a, b, count - 1);
        let d = a[count - 1] - b[count - 1];
        assert(0 <= d * d <= 65025) by (nonlinear_arith)
            requires
                -255 <= d <= 255,
        ;
    }
}

/// The distance of an image is bounded by the number of its pixels.
pub proof fn lemma_rows_distance_bounds(a: Seq<Seq<u8>>, b: Seq<Seq<u8>>, width: int, count: int)
    requires
        0 <= count <= a.len(),
        0 <= width,
        forall|y: int| 0 <= y < a.len() ==> (#[trigger] a[y]).len() == width,
    ensures
        0 <= rows_distance(a, b, count) <= 65025 * (count * width),
    decreases count,
{
    if count > 0 {
        lemma_rows_distance_bounds(a, b, width, count - 1);
        lemma_row_distance_bounds(a[count - 1], b[count - 1], width);
        assert(65025 * ((count - 1) * width) + 65025 * width == 65025 * (count * width))
            by (nonlinear_arith);
    }
}

/// The sum of a row of an image, and the sum of its squares.
fn row_sums(image: &GrayImage, y: u32) -> (sums: (u64, u64))
    requires
        y < image.spec_height(),
    ensures
        sums.0 == row_total(image@[y as int]),
        sums.1 == row_squares(image@[y as int]),
{
    let width = image.width();
    let ghost row = image@[y as int];
    let mut sum: u64 = 0;
    let mut squares: u64 = 0;
    let mut x: u32 = 0;
    while x < width
        invariant
            x <= width,
            width <= MAX_SIDE,
            y < image.spec_height(),
            width == image.spec_width(),
            image.wf(),
            row == image@[y as int],
            sum == row_total(row.take(x as int)),
            squares == row_squares(row.take(x as int)),
            sum <= 255 * x,
            squares <= 65025 * x,
        decreases width - x,
    {
        let v = image.get(x, y) as u64;
        proof {
            assert(row.take(x + 1).drop_last() == row.take(x as int));
            assert(v * v <= 65025) by (nonlinear_arith)
                requires
                    v <= 255,
            ;
        }
        sum += v;
        squares += v * v;
        x += 1;
    }
    assert(row.take(width as int) == row);
    (sum, squares)
}

/// Whether a square is flat.
pub fn is_flat_square(square: &GrayImage) -> (flat: bool)
    ensures
        flat == is_flat(square@),
{
    let width = square.width();
    let height = square.height();
    if width == 0 || height == 0 {
        proof {
            if height > 0 {
                assert(square@[0].len() == 0);
                assert(square@.len() * 0 == 0) by (nonlinear_arith);
            }
        }
        return true;
    }
    let mut sum: u64 = 0;
    let mut squares: u64 = 0;
    let mut y: u32 = 0;
    while y < height
        invariant
            y <= height,
            width == square.spec_width(),
            height == square.spec_height(),
            square.wf(),
            sum == total(square@.take(y as int)),
            squares == squares_total(square@.take(y as int)),
            sum <= 255 * (y * width),
            squares <= 65025 * (y * width),
        decreases height - y,
    {
        let sums = row_sums(square, y);
        proof {
            assert(square@.take(y + 1).drop_last() == square@.take(y as int));
            lemma_row_bounds(square@[y as int]);
            assert(255 * (y * width) + 255 * width == 255 * ((y + 1) * width))
                by (nonlinear_arith);
            assert(65025 * (y * width) + 65025 * width == 65025 * ((y + 1) * width))
                by (nonlinear_arith);
            assert((y + 1) * width <= 0x1000_0000) by (nonlinear_arith)
                requires
                    y + 1 <= 16384,
                    width <= 16384,
            ;
        }
        sum += sums.0;
        squares += sums.1;
        y += 1;
    }
    proof {
        assert(square@.take(height as int) == square@);
        assert(height * width <= 0x1000_0000) by (nonlinear_arith)
            requires
                height <= 16384,
                width <= 16384,
        ;
        assert(square@[0].len() == width);
        assert(pixel_count(square@) == height * width);
    }
    let ghost pixels = pixel_count(square@);
    let ghost whole = total(square@);
    let ghost whole_squares = squares_total(square@);
    let count: u128 = height as u128 * width as u128;
    let sum: u128 = sum as u128;
    let squares: u128 = squares as u128;
    proof {
        assert(count == pixels && sum == whole && squares == whole_squares);
        assert(pixels > 0) by (nonlinear_arith)
            requires
                pixels == height * width,
                height > 0,
                width > 0,
        ;
        assert(spread(square@) == pixels * whole_squares - whole * whole);
        assert(is_flat(square@) == (pixels * whole_squares - whole * whole < 100 * (pixels
            * pixels)));
        assert(sum <= 255 * 0x1000_0000);
        assert(squares <= 65025 * 0x1000_0000);
        assert(count * squares <= 0x1000_0000 * (65025 * 0x1000_0000)) by (nonlinear_arith)
            requires
                count <= 0x1000_0000,
                squares <= 65025 * 0x1000_0000,
        ;
        assert(sum * sum <= (255 * 0x1000_0000) * (255 * 0x1000_0000)) by (nonlinear_arith)
            requires
                sum <= 255 * 0x1000_0000,
        ;
        assert(count * count <= 0x1000_0000 * 0x1000_0000) by (nonlinear_arith)
            requires
                count <= 0x1000_0000,
        ;
    }
    count * squares < sum * sum + EMPTY_VARIANCE as u128 * (count * count)
}

/// The sum of the squared differences of a row of two images.
fn row_distance_of(a: &GrayImage, b: &GrayImage, y: u32) -> (sum: u64)
    requires
        y < a.spec_height(),
        a.spec_width() == b.spec_width(),
        a.spec_height() == b.spec_height(),
    ensures
        sum == row_distance(a@[y as int], b@[y as int], a.spec_width() as int),
{
    let width = a.width();
    let mut sum: u64 = 0;
    let mut x: u32 = 0;
    while x < width
        invariant
            x <= width,
            width <= MAX_SIDE,
            y < a.spec_height(),
            width == a.spec_width(),
            a.spec_width() == b.spec_width(),
            a.spec_height() == b.spec_height(),
            sum == row_distance(a@[y as int], b@[y as int], x as int),
            sum <= 65025 * x,
        decreases width - x,
    {
        let p = a.get(x, y) as i64;
        let q = b.get(x, y) as i64;
        let d = p - q;
        proof {
            assert(0 <= d * d <= 65025) by (nonlinear_arith)
                requires
                    -255 <= d <= 255,
            ;
        }
        sum += (d * d) as u64;
        x += 1;
    }
    sum
}

/// The distance of two images of the same size.
pub fn distance_between(a: &GrayImage, b: &GrayImage) -> (sum: u64)
    requires
        a.spec_width() == b.spec_width(),
        a.spec_height() == b.spec_height(),
    ensures
        sum == distance(a@, b@),
        sum <= 65025 * (a.spec_height() * a.spec_width()),
{
    let width = a.width();
    let height = a.height();
    let mut sum: u64 = 0;
    let mut y: u32 = 0;
    while y < height
        invariant
            y <= height,
            width == a.spec_width(),
            height == a.spec_height(),
            a.wf(),
            a.spec_width() == b.spec_width(),
            a.spec_height() == b.spec_height(),
            sum == rows_distance(a@, b@, y as int),
            sum <= 65025 * (y * width),
        decreases height - y,
    {
        let in_row = row_distance_of(a, b, y);
        proof {
            lemma_row_distance_bounds(a@[y as int], b@[y as int], width as int);
            assert(65025 * (y * width) + 65025 * width == 65025 * ((y + 1) * width))
                by (nonlinear_arith);
            assert((y + 1) * width <= 0x1000_0000) by (nonlinear_arith)
                requires
                    y + 1 <= 16384,
                    width <= 16384,
            ;
        }
        sum += in_row;
        y += 1;
    }
    sum
}

impl View for TemplateSet {
    type V = Seq<(SquareLabel, Seq<Seq<u8>>)>;

    closed spec fn view(&self) -> Seq<(SquareLabel, Seq<Seq<u8>>)> {
        self.templates@.map_values(|template: (SquareLabel, GrayImage)| (template.0, template.1@))
    }
}

/// The labels of a sequence of templates.
pub open spec fn labels_of(templates: Seq<(SquareLabel, Seq<Seq<u8>>)>) -> Seq<SquareLabel> {
    templates.map_values(|template: (SquareLabel, Seq<Seq<u8>>)| template.0)
}

/// The labels of a sequence of raw templates.
pub open spec fn raw_labels(templates: Seq<PieceTemplate>) -> Seq<SquareLabel> {
    templates.map_values(|template: PieceTemplate| template.label)
}

impl TemplateSet {
    /// Every template has the size of a square, none is labelled as an
    /// empty square, and every piece has one.
    pub open spec fn wf(&self) -> bool {
        &&& forall|k: int|
            0 <= k < self@.len() ==> is_grid(
                (#[trigger] self@[k]).1,
                CELL_SIZE as int,
                CELL_SIZE as int,
            )
        &&& template_fault(labels_of(self@)) is None
    }

    #[verifier::type_invariant]
    closed spec fn inv(&self) -> bool {
        &&& forall|k: int|
            0 <= k < self.templates@.len() ==> {
                &&& (#[trigger] self.templates@[k]).1.wf()
                &&& self.templates@[k].1.spec_width() == CELL_SIZE
                &&& self.templates@[k].1.spec_height() == CELL_SIZE
            }
        &&& template_fault(labels_of(self@)) is None
    }

    /// How many templates the set holds.
    pub fn len(&self) -> (count: usize)
        ensures
            count == self@.len(),
    {
        self.templates.len()
    }

    /// The label of template `k`.
    pub fn label(&self, k: usize) -> (label: SquareLabel)
        requires
            k < self@.len(),
        ensures
            label == self@[k as int].0,
    {
        self.templates[k].0
    }

    /// The image of template `k`.
    pub fn image(&self, k: usize) -> (image: &GrayImage)
        requires
            k < self@.len(),
        ensures
            image@ == self@[k as int].1,
            image.wf(),
            image.spec_width() == CELL_SIZE,
            image.spec_height() == CELL_SIZE,
    {
        proof {
            use_type_invariant(self);
        }
        &self.templates[k].1
    }
}

/// Whether `labels` holds `wanted`.
fn has_label(labels: &Vec<SquareLabel>, wanted: SquareLabel) -> (found: bool)
    ensures
        found == labels@.contains(wanted),
{
    let mut i: usize = 0;
    while i < labels.len()
        invariant
            i <= labels.len(),
            forall|k: int| 0 <= k < i ==> labels@[k] != wanted,
        decreases labels.len() - i,
    {
        if labels[i] == wanted {
            return true;
        }
        i += 1;
    }
    false
}

/// Checks the labels of a set of templates: none may be that of an empty
/// square, and every piece must be among them.
pub fn check_labels(labels: &Vec<SquareLabel>) -> (checked: Result<(), TemplateError>)
    ensures
        match checked {
            Ok(_) => template_fault(labels@) is None,
            Err(error) => template_fault(labels@) == Some(error),
        },
{
    if has_label(labels, SquareLabel::Empty) {
        return Err(TemplateError::NotAPiece);
    }
    let order: [SquareLabel; 12] = [
        SquareLabel::WhitePawn,
        SquareLabel::WhiteKnight,
        SquareLabel::WhiteBishop,
        SquareLabel::WhiteRook,
        SquareLabel::WhiteQueen,
        SquareLabel::WhiteKing,
        SquareLabel::BlackPawn,
        SquareLabel::BlackKnight,
        SquareLabel::BlackBishop,
        SquareLabel::BlackRook,
        SquareLabel::BlackQueen,
        SquareLabel::BlackKing,
    ];
    assert(order@ =~= pieces());
    let mut from: usize = 0;
    while from < 12
        invariant
            from <= 12,
            order@ == pieces(),
            !labels@.contains(SquareLabel::Empty),
            first_missing(labels@, 0) == first_missing(labels@, from as int),
        decreases 12 - from,
    {
        if !has_label(labels, order[from]) {
            return Err(TemplateError::Missing(order[from]));
        }
        from += 1;
    }
    Ok(())
}

impl TemplateSet {
    /// Makes a set of templates ready for use: the labels are checked,
    /// and each reference image is brought to the size of a square and
    /// turned into intensities.
    pub fn load(templates: Vec<PieceTemplate>) -> (loaded: Result<TemplateSet, TemplateError>)
        ensures
            match loaded {
                Ok(set) => {
                    &&& template_fault(raw_labels(templates@)) is None
                    &&& set.wf()
                    &&& set@.len() == templates@.len()
                    &&& forall|k: int|
                        0 <= k < templates@.len() ==> #[trigger] set@[k] == (
                            templates@[k].label,
                            prepared(templates@[k].image@, templates@[k].image.spec_width() as int),
                        )
                },
                Err(error) => template_fault(raw_labels(templates@)) == Some(error),
            },
    {
        let mut labels: Vec<SquareLabel> = Vec::new();
        let mut i: usize = 0;
        while i < templates.len()
            invariant
                i <= templates.len(),
                labels@ == raw_labels(templates@).take(i as int),
            decreases templates.len() - i,
        {
            labels.push(templates[i].label);
            i += 1;
            assert(labels@ =~= raw_labels(templates@).take(i as int));
        }
        assert(raw_labels(templates@).take(templates.len() as int) == raw_labels(templates@));
        match check_labels(&labels) {
            Err(error) => {
                return Err(error);
            },
            Ok(_) => {},
        }
        let mut ready: Vec<(SquareLabel, GrayImage)> = Vec::new();
        let mut k: usize = 0;
        while k < templates.len()
            invariant
                k <= templates.len(),
                ready@.len() == k,
                forall|j: int|
                    0 <= j < k ==> {
                        &&& (#[trigger] ready@[j]).0 == templates@[j].label
                        &&& ready@[j].1@ == prepared(
                            templates@[j].image@,
                            templates@[j].image.spec_width() as int,
                        )
                        &&& ready@[j].1.wf()
                        &&& ready@[j].1.spec_width() == CELL_SIZE
                        &&& ready@[j].1.spec_height() == CELL_SIZE
                    },
            decreases templates.len() - k,
        {
            let scaled = templates[k].image.scaled_to(CELL_SIZE, CELL_SIZE);
            let gray = scaled.to_intensity();
            ready.push((templates[k].label, gray));
            k += 1;
        }
        proof {
            let view = ready@.map_values(|template: (SquareLabel, GrayImage)| (template.0, template.1@));
            assert(labels_of(view) =~= raw_labels(templates@));
        }
        let set = TemplateSet { templates: ready };
        proof {
            assert forall|j: int| 0 <= j < templates@.len() implies #[trigger] set@[j] == (
                templates@[j].label,
                prepared(templates@[j].image@, templates@[j].image.spec_width() as int),
            ) by {
                assert(set.templates@[j].0 == templates@[j].label);
            }
            assert forall|j: int| 0 <= j < set@.len() implies is_grid(
                (#[trigger] set@[j]).1,
                CELL_SIZE as int,
                CELL_SIZE as int,
            ) by {
                assert(set.templates@[j].1.wf());
            }
        }
        Ok(set)
    }
}

/// Only one template is the nearest.
pub proof fn lemma_nearest_unique(
    square: Seq<Seq<u8>>,
    templates: Seq<(SquareLabel, Seq<Seq<u8>>)>,
    a: int,
    b: int,
)
    requires
        is_nearest(square, templates, a),
        is_nearest(square, templates, b),
    ensures
        a == b,
{
    if a < b {
        assert(same_size(square, templates[a].1));
        assert(distance(square, templates[b].1) < distance(square, templates[a].1));
        assert(distance(square, templates[a].1) <= distance(square, templates[b].1));
    }
    if b < a {
        assert(same_size(square, templates[b].1));
        assert(distance(square, templates[a].1) < distance(square, templates[b].1));
        assert(distance(square, templates[b].1) <= distance(square, templates[a].1));
    }
}

/// Whether two images have the same size.
fn has_same_size(a: &GrayImage, b: &GrayImage) -> (same: bool)
    ensures
        same == same_size(a@, b@),
        same && a.spec_height() > 0 ==> a.spec_width() == b.spec_width(),
        same ==> a.spec_height() == b.spec_height(),
{
    let same = a.height() == b.height() && (a.height() == 0 || a.width() == b.width());
    proof {
        if a.height() == b.height() && a.height() > 0 && a.width() != b.width() {
            assert(a@[0].len() != b@[0].len());
        }
    }
    same
}

/// The template nearest to the square, with its distance, if any has the
/// size of the square.
pub fn nearest_template(square: &GrayImage, templates: &TemplateSet) -> (found: Option<
    (usize, u64),
>)
    ensures
        match found {
            Some((k, gap)) => {
                &&& nearest(square@, templates@) == Some(k as int)
                &&& k < templates@.len()
                &&& gap == distance(square@, templates@[k as int].1)
                &&& gap <= 65025 * (square.spec_height() * square.spec_width())
            },
            None => nearest(square@, templates@) is None,
        },
{
    let width = square.width();
    let mut best: Option<(usize, u64)> = None;
    let mut i: usize = 0;
    while i < templates.len()
        invariant
            i <= templates@.len(),
            square.wf(),
            match best {
                Some((k, gap)) => {
                    &&& k < i
                    &&& same_size(square@, templates@[k as int].1)
                    &&& gap == distance(square@, templates@[k as int].1)
                    &&& gap <= 65025 * (square.spec_height() * square.spec_width())
                    &&& forall|j: int|
                        0 <= j < i && same_size(square@, (#[trigger] templates@[j]).1) ==> {
                            &&& gap <= distance(square@, templates@[j].1)
                            &&& j < k ==> gap < distance(square@, templates@[j].1)
                        }
                },
                None => forall|j: int|
                    0 <= j < i ==> !same_size(square@, (#[trigger] templates@[j]).1),
            },
        decreases templates@.len() - i,
    {
        let image = templates.image(i);
        if has_same_size(square, image) {
            let gap = if square.height() == 0 {
                assert(distance(square@, image@) == 0);
                0
            } else {
                distance_between(square, image)
            };
            let better = match best {
                Some((_, least)) => gap < least,
                None => true,
            };
            if better {
                best = Some((i, gap));
            }
        }
        i += 1;
    }
    proof {
        match best {
            Some((k, gap)) => {
                assert(is_nearest(square@, templates@, k as int));
                let chosen = choose|j: int| is_nearest(square@, templates@, j);
                lemma_nearest_unique(square@, templates@, chosen, k as int);
            },
            None => {
                assert forall|j: int| !is_nearest(square@, templates@, j) by {
                    if 0 <= j < templates@.len() {
                        assert(!same_size(square@, templates@[j].1));
                    }
                }
            },
        }
    }
    best
}

/// Tells what stands on a square. A flat square is empty. Otherwise the
/// square is compared with every template: the nearest gives its piece
/// if it is near enough, and the square is taken as empty if it is not.
/// A template of another size than the square is no match.
pub fn classify(square: &GrayImage, templates: &TemplateSet) -> (label: SquareLabel)
    ensures
        label == classified(square@, templates@),
        is_flat(square@) ==> label == SquareLabel::Empty,
{
    if is_flat_square(square) {
        return SquareLabel::Empty;
    }
    match nearest_template(square, templates) {
        None => SquareLabel::Empty,
        Some((k, gap)) => {
            let width = square.width();
            let height = square.height();
            proof {
                assert(height * width <= 0x1000_0000) by (nonlinear_arith)
                    requires
                        height <= 16384,
                        width <= 16384,
                ;
                if height > 0 {
                    assert(square@[0].len() == width);
                }
                assert(pixel_count(square@) == height * width) by (nonlinear_arith)
                    requires
                        height == 0 ==> pixel_count(square@) == 0,
                        height > 0 ==> pixel_count(square@) == height * width,
                ;
            }
            let pixels: u64 = height as u64 * width as u64;
            if gap * 100 < MATCH_PERCENT * (pixels * FULL_SCALE) {
                templates.label(k)
            } else {
                SquareLabel::Empty
            }
        },
    }
}

/// Tells what stands on each of the 64 squares of a board.
pub fn classify_board(squares: &Squares, templates: &TemplateSet) -> (grid: BoardGrid)
    ensures
        forall|rank: int, file: int|
            0 <= rank < 8 && 0 <= file < 8 ==> #[trigger] grid.at(rank, file) == classified(
                squares@[rank * 8 + file],
                templates@,
            ),
{
    let mut grid = BoardGrid::empty();
    let mut rank: usize = 0;
    while rank < 8
        invariant
            rank <= 8,
            forall|r: int, f: int|
                0 <= r < rank && 0 <= f < 8 ==> #[trigger] grid.at(r, f) == classified(
                    squares@[r * 8 + f],
                    templates@,
                ),
        decreases 8 - rank,
    {
        let mut file: usize = 0;
        while file < 8
            invariant
                file <= 8,
                rank < 8,
                forall|r: int, f: int|
                    0 <= r < rank && 0 <= f < 8 ==> #[trigger] grid.at(r, f) == classified(
                        squares@[r * 8 + f],
                        templates@,
                    ),
                forall|f: int|
                    0 <= f < file ==> #[trigger] grid.at(rank as int, f) == classified(
                        squares@[rank * 8 + f],
                        templates@,
                    ),
            decreases 8 - file,
        {
            let label = classify(squares.cell(rank, file), templates);
            grid.set(rank, file, label);
            file += 1;
        }
        rank += 1;
    }
    grid
}

/// A row in which every pixel is as bright as the next sums up to its
/// length times that brightness.
pub proof fn lemma_uniform_row(row: Seq<u8>, value: u8)
    requires
        forall|x: int| 0 <= x < row.len() ==> #[trigger] row[x] == value,
    ensures
        row_total(row) == value * row.len(),
        row_squares(row) == value * value * row.len(),
    decreases row.len(),
{
    if row.len() > 0 {
        let init = row.drop_last();
        assert forall|x: int| 0 <= x < init.len() implies #[trigger] init[x] == value by {
            assert(init[x] == row[x]);
        }
        lemma_uniform_row(init, value);
        assert(row.last() == value);
        assert(value * init.len() + value == value * row.len()) by (nonlinear_arith)
            requires
                init.len() + 1 == row.len(),
        ;
        assert(value * value * init.len() + value * value == value * value * row.len())
            by (nonlinear_arith)
            requires
                init.len() + 1 == row.len(),
        ;
    }
}

/// An image in which every pixel is as bright as the next sums up to the
/// number of its pixels times that brightness.
pub proof fn lemma_uniform_image(rows: Seq<Seq<u8>>, width: int, value: u8)
    requires
        0 <= width,
        forall|y: int| 0 <= y < rows.len() ==> (#[trigger] rows[y]).len() == width,
        forall|x: int, y: int| 0 <= y < rows.len() && 0 <= x < width ==> #[trigger] rows[y][x] == value,
    ensures
        total(rows) == value * (rows.len() * width),
        squares_total(rows) == value * value * (rows.len() * width),
    decreases rows.len(),
{
    if rows.len() > 0 {
        let init = rows.drop_last();
        assert forall|y: int| 0 <= y < init.len() implies (#[trigger] init[y]).len() == width by {
            assert(init[y] == rows[y]);
        }
        assert forall|x: int, y: int| 0 <= y < init.len() && 0 <= x < width implies #[trigger] init[y][x]
            == value by {
            assert(init[y][x] == rows[y][x]);
        }
        lemma_uniform_image(init, width, value);
        let last = rows.last();
        assert forall|x: int| 0 <= x < last.len() implies #[trigger] last[x] == value by {
            assert(last[x] == rows[rows.len() - 1][x]);
        }
        lemma_uniform_row(last, value);
        assert(last.len() == width);
        assert(total(rows) == total(init) + row_total(last));
        assert(squares_total(rows) == squares_total(init) + row_squares(last));
        assert(value * (init.len() * width) + value * width == value * (rows.len() * width))
            by (nonlinear_arith)
            requires
                init.len() + 1 == rows.len(),
        ;
        assert(value * value * (init.len() * width) + value * value * width == value * value * (
        rows.len() * width)) by (nonlinear_arith)
            requires
                init.len() + 1 == rows.len(),
        ;
    } else {
        assert(value * (rows.len() * width) == 0 && value * value * (rows.len() * width) == 0)
            by (nonlinear_arith)
            requires
                rows.len() == 0,
        ;
    }
}

/// A square of one colour is empty, whatever the templates are.
pub proof fn law_uniform_square_is_empty(
    square: Seq<Seq<u8>>,
    value: u8,
    templates: Seq<(SquareLabel, Seq<Seq<u8>>)>,
)
    requires
        forall|y: int| 0 <= y < square.len() ==> (#[trigger] square[y]).len() == square[0].len(),
        forall|x: int, y: int|
            0 <= y < square.len() && 0 <= x < square[y].len() ==> #[trigger] square[y][x] == value,
    ensures
        is_flat(square),
        classified(square, templates) == SquareLabel::Empty,
{
    if square.len() > 0 {
        let width = square[0].len() as int;
        lemma_uniform_image(square, width, value);
        let n = pixel_count(square);
        let v = value as int;
        assert(n == square.len() * width);
        assert(n * (v * v * n) - (v * n) * (v * n) == 0) by (nonlinear_arith);
        assert(spread(square) == 0);
        if n > 0 {
            assert(n * n > 0) by (nonlinear_arith)
                requires
                    n > 0,
            ;
        }
    }
}

/// Rows at no distance from each other are the same.
pub proof fn lemma_row_distance_zero(a: Seq<u8>, b: Seq<u8>, count: int)
    requires
        0 <= count <= a.len(),
        count <= b.len(),
    ensures
        row_distance(a, a, count) == 0,
        row_distance(a, b, count) == 0 ==> forall|x: int| 0 <= x < count ==> a[x] == b[x],
    decreases count,
{
    if count > 0 {
        lemma_row_distance_zero(a, b, count - 1);
        lemma_row_distance_bounds(a, b, count - 1);
        let d = a[count - 1] - b[count - 1];
        assert(d * d >= 0 && (d * d == 0 ==> d == 0)) by (nonlinear_arith);
    }
}

/// Images of the same size at no distance from each other are the same.
pub proof fn lemma_distance_zero(a: Seq<Seq<u8>>, b: Seq<Seq<u8>>, width: int, count: int)
    requires
        0 <= count <= a.len(),
        a.len() == b.len(),
        0 <= width,
        forall|y: int| 0 <= y < a.len() ==> (#[trigger] a[y]).len() == width,
        forall|y: int| 0 <= y < b.len() ==> (#[trigger] b[y]).len() == width,
    ensures
        rows_distance(a, a, count) == 0,
        rows_distance(a, b, count) == 0 ==> forall|y: int| 0 <= y < count ==> a[y] == b[y],
    decreases count,
{
    if count > 0 {
        lemma_distance_zero(a, b, width, count - 1);
        lemma_rows_distance_bounds(a, b, width, count - 1);
        lemma_row_distance_zero(a[count - 1], b[count - 1], width);
        lemma_row_distance_bounds(a[count - 1], b[count - 1], width);
        if rows_distance(a, b, count) == 0 {
            assert(a[count - 1] =~= b[count - 1]);
        }
    }
}

/// A square that is an exact copy of a template, and of none before it,
/// is told to hold the piece of that template, at distance 0, unless the
/// square is flat.
pub proof fn law_copy_of_template_is_recognized(
    square: Seq<Seq<u8>>,
    width: int,
    templates: Seq<(SquareLabel, Seq<Seq<u8>>)>,
    k: int,
)
    requires
        is_grid(square, width, square.len() as int),
        forall|j: int|
            0 <= j < templates.len() ==> is_grid(
                (#[trigger] templates[j]).1,
                width,
                square.len() as int,
            ),
        0 <= k < templates.len(),
        templates[k].1 == square,
        forall|j: int| 0 <= j < k ==> (#[trigger] templates[j]).1 != square,
        !is_flat(square),
    ensures
        distance(square, templates[k].1) == 0,
        nearest(square, templates) == Some(k),
        classified(square, templates) == templates[k].0,
{
    let height = square.len() as int;
    lemma_distance_zero(square, square, width, height);
    assert forall|j: int|
        0 <= j < templates.len() && same_size(square, (#[trigger] templates[j]).1) implies 0
        <= distance(square, templates[j].1) && (j < k ==> 0 < distance(
        square,
        templates[j].1,
    )) by {
        let other = templates[j].1;
        assert(is_grid(other, width, height));
        lemma_rows_distance_bounds(square, other, width, height);
        if j < k && distance(square, other) == 0 {
            lemma_distance_zero(square, other, width, height);
            assert(square =~= other);
        }
    }
    assert(same_size(square, templates[k].1));
    assert(is_nearest(square, templates, k));
    let chosen = choose|j: int| is_nearest(square, templates, j);
    lemma_nearest_unique(square, templates, chosen, k);
    let n = pixel_count(square);
    assert(n > 0);
    assert(MATCH_PERCENT * (n * FULL_SCALE) > 0) by (nonlinear_arith)
        requires
            n > 0,
    ;
}

} // verus!
