//! Finding the board in a screenshot: the square region in which edges
//! are densest.

use crate::raster::{crop_rows, is_grid, GrayImage, RasterImage, Rgb, MAX_SIDE};
use vstd::arithmetic::div_mod::{lemma_fundamental_div_mod, lemma_mod_multiples_basic};
use vstd::prelude::*;

verus! {

/// The smallest side of a region that can hold a board, in pixels.
pub const MIN_BOARD_SIZE: u32 = 200;

/// The step from one candidate size to the next, in pixels.
pub const SIZE_STEP: u32 = 50;

/// The gradient from which a pixel is an edge if an edge is next to it.
pub const EDGE_LOW: u32 = 50;

/// The gradient from which a pixel is an edge by itself.
pub const EDGE_HIGH: u32 = 150;

/// The share of edge pixels that a region must reach, in percent.
pub const MIN_DENSITY_PERCENT: u64 = 1;

/// A square part of an image, in pixels from its top left corner.
#[derive(Clone, Copy, Debug, PartialEq, Eq, Structural)]
pub struct Region {
    pub x: u32,
    pub y: u32,
    pub size: u32,
}

/// Why no board was cut out of a screenshot.
#[derive(Clone, Copy, Debug, PartialEq, Eq, Structural)]
pub enum LocateError {
    /// No region holds enough edges.
    NotFound,
    /// The region is smaller than a board can be, or not inside the image.
    MalformedCrop,
}

/// For each pixel of an image, whether it is an edge.
#[derive(Debug)]
pub struct EdgeMap {
    width: u32,
    height: u32,
    rows: Vec<Vec<bool>>,
}

/// The pixel `(x, y)`, or 0 outside the image.
pub open spec fn intensity_at(image: Seq<Seq<u8>>, x: int, y: int) -> int {
    if 0 <= y < image.len() && 0 <= x < image[y].len() {
        image[y][x] as int
    } else {
        0
    }
}

/// The absolute value.
pub open spec fn abs(v: int) -> int {
    if v < 0 {
        -v
    } else {
        v
    }
}

/// How much brighter the column right of `(x, y)` is than the left one,
/// the middle row counted twice.
pub open spec fn gradient_x(image: Seq<Seq<u8>>, x: int, y: int) -> int {
    (intensity_at(image, x + 1, y - 1) + 2 * intensity_at(image, x + 1, y) + intensity_at(
        image,
        x + 1,
        y + 1,
    )) - (intensity_at(image, x - 1, y - 1) + 2 * intensity_at(image, x - 1, y) + intensity_at(
        image,
        x - 1,
        y + 1,
    ))
}

/// How much brighter the row below `(x, y)` is than the one above, the
/// middle column counted twice.
pub open spec fn gradient_y(image: Seq<Seq<u8>>, x: int, y: int) -> int {
    (intensity_at(image, x - 1, y + 1) + 2 * intensity_at(image, x, y + 1) + intensity_at(
        image,
        x + 1,
        y + 1,
    )) - (intensity_at(image, x - 1, y - 1) + 2 * intensity_at(image, x, y - 1) + intensity_at(
        image,
        x + 1,
        y - 1,
    ))
}

/// Whether the pixel has all eight neighbours inside the image.
pub open spec fn is_interior(image: Seq<Seq<u8>>, x: int, y: int) -> bool {
    1 <= y && y + 1 < image.len() && 1 <= x && x + 1 < image[y].len()
}

/// The strength of the gradient at `(x, y)`: the sum of its absolute
/// parts, and 0 on the border and outside the image.
pub open spec fn gradient(image: Seq<Seq<u8>>, x: int, y: int) -> int {
    if is_interior(image, x, y) {
        abs(gradient_x(image, x, y)) + abs(gradient_y(image, x, y))
    } else {
        0
    }
}

/// Whether the gradient at `(x, y)` makes the pixel an edge by itself.
pub open spec fn is_strong(image: Seq<Seq<u8>>, x: int, y: int) -> bool {
    gradient(image, x, y) >= EDGE_HIGH
}

/// Whether one of the eight neighbours of `(x, y)` is an edge by itself.
pub open spec fn beside_strong(image: Seq<Seq<u8>>, x: int, y: int) -> bool {
    ||| is_strong(image, x - 1, y - 1)
    ||| is_strong(image, x, y - 1)
    ||| is_strong(image, x + 1, y - 1)
    ||| is_strong(image, x - 1, y)
    ||| is_strong(image, x + 1, y)
    ||| is_strong(image, x - 1, y + 1)
    ||| is_strong(image, x, y + 1)
    ||| is_strong(image, x + 1, y + 1)
}

/// Whether the pixel `(x, y)` is an edge: its gradient reaches the high
/// threshold, or it reaches the low one next to a pixel that reaches the
/// high one.
pub open spec fn is_edge(image: Seq<Seq<u8>>, x: int, y: int) -> bool {
    is_strong(image, x, y) || (gradient(image, x, y) >= EDGE_LOW && beside_strong(image, x, y))
}

/// For each pixel of an image, whether it is an edge.
pub open spec fn edges_of(image: Seq<Seq<u8>>) -> Seq<Seq<bool>> {
    Seq::new(image.len(), |y: int| Seq::new(image[y].len(), |x: int| is_edge(image, x, y)))
}

/// How many of `row[from..to]` are edges.
pub open spec fn row_edges(row: Seq<bool>, from: int, to: int) -> nat
    decreases to - from,
{
    if to <= from {
        0
    } else {
        row_edges(row, from, to - 1) + if row[to - 1] {
            1nat
        } else {
            0nat
        }
    }
}

/// How many pixels are edges in the first `count` rows of the square of
/// the given size at `(x, y)`.
pub open spec fn block_edges(marks: Seq<Seq<bool>>, x: int, y: int, size: int, count: int) -> nat
    decreases count,
{
    if count <= 0 {
        0
    } else {
        block_edges(marks, x, y, size, count - 1) + row_edges(marks[y + count - 1], x, x + size)
    }
}

/// Whether a region lies inside an image of the given size.
pub open spec fn fits(region: Region, width: int, height: int) -> bool {
    region.x + region.size <= width && region.y + region.size <= height
}

/// Whether a region is one that the search looks at: its size is the
/// smallest a board can have or a number of steps above it, its corner
/// lies a number of quarter sizes from the top and from the left, and it
/// is inside the image.
pub open spec fn is_candidate(region: Region, width: int, height: int) -> bool {
    &&& region.size >= MIN_BOARD_SIZE
    &&& (region.size - MIN_BOARD_SIZE) % (SIZE_STEP as int) == 0
    &&& region.x as int % (region.size as int / 4) == 0
    &&& region.y as int % (region.size as int / 4) == 0
    &&& fits(region, width, height)
}

/// Whether the search looks at `a` before it looks at `b`: smaller sizes
/// first, then from the top, then from the left.
pub open spec fn sweeps_before(a: Region, b: Region) -> bool {
    a.size < b.size || (a.size == b.size && (a.y < b.y || (a.y == b.y && a.x < b.x)))
}

/// Whether `edges` of the pixels of a square of the given size are no
/// less than the share that a board has.
pub open spec fn reaches_threshold(edges: int, size: int) -> bool {
    edges * 100 >= MIN_DENSITY_PERCENT * (size * size)
}

/// Whether a square of size `size_a` with `edges_a` edge pixels is denser
/// than one of size `size_b` with `edges_b`.
pub open spec fn denser(edges_a: int, size_a: int, edges_b: int, size_b: int) -> bool {
    edges_a * (size_b * size_b) > edges_b * (size_a * size_a)
}

/// How many pixels of a region are marked as edges.
pub open spec fn edge_count(marks: Seq<Seq<bool>>, region: Region) -> nat {
    block_edges(marks, region.x as int, region.y as int, region.size as int, region.size as int)
}

impl View for EdgeMap {
    type V = Seq<Seq<bool>>;

    closed spec fn view(&self) -> Seq<Seq<bool>> {
        self.rows@.map_values(|row: Vec<bool>| row@)
    }
}

impl EdgeMap {
    /// How many pixels wide the map is.
    pub closed spec fn spec_width(&self) -> u32 {
        self.width
    }

    /// How many pixels high the map is.
    pub closed spec fn spec_height(&self) -> u32 {
        self.height
    }

    /// The sides are within the limit, and there is one mark for each
    /// pixel.
    pub open spec fn wf(&self) -> bool {
        &&& self.spec_width() <= MAX_SIDE
        &&& self.spec_height() <= MAX_SIDE
        &&& is_grid(self@, self.spec_width() as int, self.spec_height() as int)
    }

    #[verifier::type_invariant]
    closed spec fn inv(&self) -> bool {
        self.wf()
    }

    /// A map of the given size from its marks, row by row. There must be
    /// one row for each line and one mark for each pixel of it, and no
    /// side may be longer than `MAX_SIDE`.
    pub fn new(width: u32, height: u32, rows: Vec<Vec<bool>>) -> (map: Option<EdgeMap>)
        ensures
            match map {
                Some(made) => {
                    &&& made.wf()
                    &&& made.spec_width() == width
                    &&& made.spec_height() == height
                    &&& made@ == rows@.map_values(|row: Vec<bool>| row@)
                },
                None => {
                    ||| width > MAX_SIDE
                    ||| height > MAX_SIDE
                    ||| rows@.len() != height
                    ||| exists|y: int| 0 <= y < rows@.len() && (#[trigger] rows@[y])@.len() != width
                },
            },
    {
        if width > MAX_SIDE || height > MAX_SIDE || rows.len() != height as usize {
            return None;
        }
        let mut y: usize = 0;
        while y < rows.len()
            invariant
                y <= rows.len(),
                forall|k: int| 0 <= k < y ==> (#[trigger] rows@[k])@.len() == width,
            decreases rows.len() - y,
        {
            if rows[y].len() != width as usize {
                return None;
            }
            y += 1;
        }
        Some(EdgeMap { width, height, rows })
    }

    /// How many pixels wide the map is.
    #[verifier::when_used_as_spec(spec_width)]
    pub fn width(&self) -> (w: u32)
        ensures
            w == self.spec_width(),
            self.wf(),
    {
        proof {
            use_type_invariant(self);
        }
        self.width
    }

    /// How many pixels high the map is.
    #[verifier::when_used_as_spec(spec_height)]
    pub fn height(&self) -> (h: u32)
        ensures
            h == self.spec_height(),
            self.wf(),
    {
        proof {
            use_type_invariant(self);
        }
        self.height
    }

    /// Whether the pixel `(x, y)` is marked as an edge.
    pub fn is_marked(&self, x: u32, y: u32) -> (marked: bool)
        requires
            x < self.spec_width(),
            y < self.spec_height(),
        ensures
            marked == self@[y as int][x as int],
    {
        proof {
            use_type_invariant(self);
            assert(self@[y as int] == self.rows@[y as int]@);
        }
        self.rows[y as usize][x as usize]
    }

    /// How many pixels of a region inside the map are marked as edges.
    pub fn count_edges(&self, region: Region) -> (count: u64)
        requires
            fits(region, self.spec_width() as int, self.spec_height() as int),
        ensures
            count == edge_count(self@, region),
            count <= region.size * region.size,
    {
        proof {
            use_type_invariant(self);
        }
        let mut count: u64 = 0;
        let mut j: u32 = 0;
        while j < region.size
            invariant
                j <= region.size,
                self.wf(),
                fits(region, self.spec_width() as int, self.spec_height() as int),
                count == block_edges(
                    self@,
                    region.x as int,
                    region.y as int,
                    region.size as int,
                    j as int,
                ),
                count <= j * region.size,
            decreases region.size - j,
        {
            let mut in_row: u64 = 0;
            let mut i: u32 = 0;
            while i < region.size
                invariant
                    i <= region.size,
                    j < region.size,
                    self.wf(),
                    fits(region, self.spec_width() as int, self.spec_height() as int),
                    in_row == row_edges(
                        self@[region.y + j],
                        region.x as int,
                        region.x + i,
                    ),
                    in_row <= i,
                decreases region.size - i,
            {
                if self.is_marked(region.x + i, region.y + j) {
                    in_row += 1;
                }
                i += 1;
            }
            proof {
                assert(j * region.size + region.size == (j + 1) * region.size) by (nonlinear_arith);
                assert((j + 1) * region.size <= region.size * region.size) by (nonlinear_arith)
                    requires
                        j < region.size,
                ;
                assert(region.size * region.size <= 0x1000_0000) by (nonlinear_arith)
                    requires
                        region.size <= 16384,
                ;
            }
            count += in_row;
            j += 1;
        }
        count
    }
}

/// The pixel `(x, y)`, or 0 outside the image.
fn intensity(image: &GrayImage, x: i64, y: i64) -> (value: i64)
    requires
        -1 <= x <= MAX_SIDE + 1,
        -1 <= y <= MAX_SIDE + 1,
    ensures
        value == intensity_at(image@, x as int, y as int),
        0 <= value <= 255,
{
    if 0 <= x && x < image.width() as i64 && 0 <= y && y < image.height() as i64 {
        image.get(x as u32, y as u32) as i64
    } else {
        0
    }
}

/// The strength of the gradient at `(x, y)`.
fn gradient_of(image: &GrayImage, x: i64, y: i64) -> (strength: i64)
    requires
        -1 <= x <= MAX_SIDE,
        -1 <= y <= MAX_SIDE,
    ensures
        strength == gradient(image@, x as int, y as int),
        0 <= strength <= 2040,
{
    if !(1 <= x && x + 1 < image.width() as i64 && 1 <= y && y + 1 < image.height() as i64) {
        return 0;
    }
    let top_left = intensity(image, x - 1, y - 1);
    let top = intensity(image, x, y - 1);
    let top_right = intensity(image, x + 1, y - 1);
    let left = intensity(image, x - 1, y);
    let right = intensity(image, x + 1, y);
    let bottom_left = intensity(image, x - 1, y + 1);
    let bottom = intensity(image, x, y + 1);
    let bottom_right = intensity(image, x + 1, y + 1);
    let across = (top_right + 2 * right + bottom_right) - (top_left + 2 * left + bottom_left);
    let down = (bottom_left + 2 * bottom + bottom_right) - (top_left + 2 * top + top_right);
    let across = if across < 0 {
        -across
    } else {
        across
    };
    let down = if down < 0 {
        -down
    } else {
        down
    };
    across + down
}

/// Whether the pixel `(x, y)` is an edge.
fn edge_at(image: &GrayImage, x: u32, y: u32) -> (edge: bool)
    requires
        image.wf(),
        x < image.spec_width(),
        y < image.spec_height(),
    ensures
        edge == is_edge(image@, x as int, y as int),
{
    let x = x as i64;
    let y = y as i64;
    let strength = gradient_of(image, x, y);
    if strength >= EDGE_HIGH as i64 {
        return true;
    }
    if strength < EDGE_LOW as i64 {
        return false;
    }
    let high = EDGE_HIGH as i64;
    gradient_of(image, x - 1, y - 1) >= high || gradient_of(image, x, y - 1) >= high
        || gradient_of(image, x + 1, y - 1) >= high || gradient_of(image, x - 1, y) >= high
        || gradient_of(image, x + 1, y) >= high || gradient_of(image, x - 1, y + 1) >= high
        || gradient_of(image, x, y + 1) >= high || gradient_of(image, x + 1, y + 1) >= high
}

/// Marks the edges of an image: the pixels at which the intensity changes
/// strongly, and those beside them at which it changes noticeably.
pub fn detect_edges(image: &GrayImage) -> (map: EdgeMap)
    ensures
        map.wf(),
        map.spec_width() == image.spec_width(),
        map.spec_height() == image.spec_height(),
        map@ == edges_of(image@),
{
    let width = image.width();
    let height = image.height();
    let mut rows: Vec<Vec<bool>> = Vec::new();
    let mut y: u32 = 0;
    while y < height
        invariant
            y <= height,
            image.wf(),
            width == image.spec_width(),
            height == image.spec_height(),
            rows@.len() == y,
            forall|k: int| 0 <= k < y ==> (#[trigger] rows@[k])@ == edges_of(image@)[k],
        decreases height - y,
    {
        let mut row: Vec<bool> = Vec::new();
        let mut x: u32 = 0;
        while x < width
            invariant
                x <= width,
                y < height,
                image.wf(),
                width == image.spec_width(),
                height == image.spec_height(),
                row@.len() == x,
                forall|i: int| 0 <= i < x ==> #[trigger] row@[i] == is_edge(image@, i, y as int),
            decreases width - x,
        {
            row.push(edge_at(image, x, y));
            x += 1;
        }
        assert(row@ =~= edges_of(image@)[y as int]);
        rows.push(row);
        y += 1;
    }
    let map = EdgeMap { width, height, rows };
    assert(map@ =~= edges_of(image@));
    map
}

/// Whether region `a` holds a greater share of edges than region `b`.
pub open spec fn denser_region(marks: Seq<Seq<bool>>, a: Region, b: Region) -> bool {
    denser(edge_count(marks, a) as int, a.size as int, edge_count(marks, b) as int, b.size as int)
}

/// Whether `region` is the one that the search settles on: a candidate
/// that no candidate is denser than, and that is denser than every
/// candidate looked at before it.
pub open spec fn is_densest(marks: Seq<Seq<bool>>, width: int, height: int, region: Region) -> bool {
    &&& is_candidate(region, width, height)
    &&& forall|other: Region| #[trigger]
        is_candidate(other, width, height) ==> {
            &&& !denser_region(marks, other, region)
            &&& sweeps_before(other, region) ==> denser_region(marks, region, other)
        }
}

/// Whether a region is the board: the one that the search settles on, if
/// it holds the share of edges that a board has.
pub open spec fn is_board(marks: Seq<Seq<bool>>, width: int, height: int, region: Region) -> bool {
    is_densest(marks, width, height, region) && reaches_threshold(
        edge_count(marks, region) as int,
        region.size as int,
    )
}

/// Whether some candidate holds the share of edges that a board has.
pub open spec fn has_dense_candidate(marks: Seq<Seq<bool>>, width: int, height: int) -> bool {
    exists|region: Region|
        is_candidate(region, width, height) && #[trigger] reaches_threshold(
            edge_count(marks, region) as int,
            region.size as int,
        )
}

/// Where the board is, if there is one.
pub open spec fn located(marks: Seq<Seq<bool>>, width: int, height: int) -> Result<
    Region,
    LocateError,
> {
    if exists|region: Region| is_board(marks, width, height, region) {
        Ok(choose|region: Region| is_board(marks, width, height, region))
    } else {
        Err(LocateError::NotFound)
    }
}

/// Whether the search has looked at `region` when it stands at the given
/// size and corner.
pub open spec fn before_cursor(region: Region, size: int, y: int, x: int) -> bool {
    region.size < size || (region.size == size && (region.y < y || (region.y == y && region.x
        < x)))
}

/// What the search knows when it stands at the given size and corner:
/// `best` is the densest of the candidates looked at, and the first of
/// the densest.
pub open spec fn swept(
    marks: Seq<Seq<bool>>,
    width: int,
    height: int,
    best: Option<Region>,
    best_count: int,
    size: int,
    y: int,
    x: int,
) -> bool {
    match best {
        None => forall|other: Region| #[trigger]
            is_candidate(other, width, height) ==> !before_cursor(other, size, y, x),
        Some(found) => {
            &&& is_candidate(found, width, height)
            &&& best_count == edge_count(marks, found)
            &&& before_cursor(found, size, y, x)
            &&& forall|other: Region| #[trigger]
                is_candidate(other, width, height) && before_cursor(other, size, y, x) ==> {
                    &&& !denser_region(marks, other, found)
                    &&& sweeps_before(other, found) ==> denser_region(marks, found, other)
                }
        },
    }
}

/// Of two multiples of `m`, one that is less than the other plus `m` is
/// no greater than the other.
pub proof fn lemma_next_multiple(a: int, b: int, m: int)
    requires
        m > 0,
        0 <= a,
        0 <= b,
        a % m == 0,
        b % m == 0,
        a < b + m,
    ensures
        a <= b,
{
    lemma_fundamental_div_mod(a, m);
    lemma_fundamental_div_mod(b, m);
    let qa = a / m;
    let qb = b / m;
    assert(qa <= qb) by (nonlinear_arith)
        requires
            m > 0,
            m * qa < m * qb + m,
    ;
    assert(m * qa <= m * qb) by (nonlinear_arith)
        requires
            m > 0,
            qa <= qb,
    ;
}

/// A multiple of `m` plus `m` is a multiple of `m`.
pub proof fn lemma_step_multiple(a: int, m: int)
    requires
        m > 0,
        0 <= a,
        a % m == 0,
    ensures
        (a + m) % m == 0,
{
    lemma_fundamental_div_mod(a, m);
    let q = a / m;
    assert(a + m == m * (q + 1)) by (nonlinear_arith)
        requires
            a == m * q,
    ;
    lemma_mod_multiples_basic(q + 1, m);
    assert((q + 1) * m == m * (q + 1)) by (nonlinear_arith);
}

/// What is no denser than something that another is denser than, that
/// other is denser than too.
pub proof fn lemma_denser_chain(
    edges_a: int,
    size_a: int,
    edges_b: int,
    size_b: int,
    edges_c: int,
    size_c: int,
)
    requires
        size_a > 0,
        size_b > 0,
        size_c > 0,
        edges_a >= 0,
        edges_b >= 0,
        edges_c >= 0,
        !denser(edges_a, size_a, edges_b, size_b),
        denser(edges_c, size_c, edges_b, size_b),
    ensures
        denser(edges_c, size_c, edges_a, size_a),
{
    let na = size_a * size_a;
    let nb = size_b * size_b;
    let nc = size_c * size_c;
    assert(na > 0 && nb > 0 && nc > 0) by (nonlinear_arith)
        requires
            size_a > 0,
            size_b > 0,
            size_c > 0,
            na == size_a * size_a,
            nb == size_b * size_b,
            nc == size_c * size_c,
    ;
    assert(edges_a * nb <= edges_b * na);
    assert(edges_c * nb > edges_b * nc);
    assert(edges_a * nb * nc <= edges_b * na * nc) by (nonlinear_arith)
        requires
            edges_a * nb <= edges_b * na,
            nc > 0,
    ;
    assert(edges_c * nb * na > edges_b * nc * na) by (nonlinear_arith)
        requires
            edges_c * nb > edges_b * nc,
            na > 0,
    ;
    assert(edges_c * na > edges_a * nc) by (nonlinear_arith)
        requires
            edges_a * nb * nc <= edges_b * na * nc,
            edges_c * nb * na > edges_b * nc * na,
            nb > 0,
    ;
}

/// What is no denser than something below the threshold is below it too.
pub proof fn lemma_below_threshold(edges_a: int, size_a: int, edges_b: int, size_b: int)
    requires
        size_a > 0,
        size_b > 0,
        edges_a >= 0,
        edges_b >= 0,
        !denser(edges_a, size_a, edges_b, size_b),
        !reaches_threshold(edges_b, size_b),
    ensures
        !reaches_threshold(edges_a, size_a),
{
    let na = size_a * size_a;
    let nb = size_b * size_b;
    assert(na > 0 && nb > 0) by (nonlinear_arith)
        requires
            size_a > 0,
            size_b > 0,
            na == size_a * size_a,
            nb == size_b * size_b,
    ;
    assert(edges_a * nb <= edges_b * na);
    assert(edges_b * 100 < nb);
    assert(edges_a * 100 < na) by (nonlinear_arith)
        requires
            edges_a * nb <= edges_b * na,
            edges_b * 100 < nb,
            na > 0,
            nb > 0,
            edges_a >= 0,
            edges_b >= 0,
    ;
}

/// The search settles on one region at most.
pub proof fn lemma_densest_unique(
    marks: Seq<Seq<bool>>,
    width: int,
    height: int,
    a: Region,
    b: Region,
)
    requires
        is_densest(marks, width, height, a),
        is_densest(marks, width, height, b),
    ensures
        a == b,
{
    assert(is_candidate(a, width, height));
    assert(is_candidate(b, width, height));
    if sweeps_before(a, b) {
        assert(denser_region(marks, b, a));
        assert(!denser_region(marks, b, a));
    }
    if sweeps_before(b, a) {
        assert(denser_region(marks, a, b));
        assert(!denser_region(marks, a, b));
    }
}

/// Where the search finds a board, that is where the board is.
pub proof fn lemma_located_is(marks: Seq<Seq<bool>>, width: int, height: int, region: Region)
    requires
        is_board(marks, width, height, region),
    ensures
        located(marks, width, height) == Ok::<Region, LocateError>(region),
{
    let chosen = choose|other: Region| is_board(marks, width, height, other);
    lemma_densest_unique(marks, width, height, chosen, region);
}

/// Looks at the candidate at the cursor and keeps the denser of it and
/// the best so far.
fn consider(map: &EdgeMap, best: Option<Region>, best_count: u64, region: Region) -> (kept: (
    Option<Region>,
    u64,
))
    requires
        map.wf(),
        is_candidate(region, map.spec_width() as int, map.spec_height() as int),
        swept(
            map@,
            map.spec_width() as int,
            map.spec_height() as int,
            best,
            best_count as int,
            region.size as int,
            region.y as int,
            region.x as int,
        ),
    ensures
        kept.0 is Some,
        swept(
            map@,
            map.spec_width() as int,
            map.spec_height() as int,
            kept.0,
            kept.1 as int,
            region.size as int,
            region.y as int,
            region.x + region.size / 4,
        ),
{
    let ghost w = map.spec_width() as int;
    let ghost h = map.spec_height() as int;
    let ghost step = region.size as int / 4;
    let count = map.count_edges(region);
    proof {
        assert(region.size * region.size <= 0x1000_0000) by (nonlinear_arith)
            requires
                region.size <= 16384,
        ;
        assert forall|other: Region| #[trigger]
            is_candidate(other, w, h) && before_cursor(
                other,
                region.size as int,
                region.y as int,
                region.x + step,
            ) implies other == region || before_cursor(
            other,
            region.size as int,
            region.y as int,
            region.x as int,
        ) by {
            if other.size == region.size && other.y == region.y && other.x >= region.x {
                lemma_next_multiple(other.x as int, region.x as int, step);
            }
        }
    }
    match best {
        None => (Some(region), count),
        Some(found) => {
            proof {
                assert(found.size * found.size <= 0x1000_0000) by (nonlinear_arith)
                    requires
                        found.size <= 16384,
                ;
                lemma_count_bound(map@, found);
                assert(count * (found.size * found.size) <= 0x1000_0000 * 0x1000_0000)
                    by (nonlinear_arith)
                    requires
                        count <= 0x1000_0000,
                        found.size * found.size <= 0x1000_0000,
                        0 <= count,
                ;
                assert(best_count * (region.size * region.size) <= 0x1000_0000 * 0x1000_0000)
                    by (nonlinear_arith)
                    requires
                        best_count <= 0x1000_0000,
                        region.size * region.size <= 0x1000_0000,
                        0 <= best_count,
                ;
            }
            let found_area: u64 = found.size as u64 * found.size as u64;
            let region_area: u64 = region.size as u64 * region.size as u64;
            if count * found_area > best_count * region_area {
                proof {
                    assert(denser_region(map@, region, found));
                    assert forall|other: Region| #[trigger]
                        is_candidate(other, w, h) && before_cursor(
                            other,
                            region.size as int,
                            region.y as int,
                            region.x as int,
                        ) implies denser_region(map@, region, other) && !denser_region(
                        map@,
                        other,
                        region,
                    ) by {
                        lemma_denser_chain(
                            edge_count(map@, other) as int,
                            other.size as int,
                            edge_count(map@, found) as int,
                            found.size as int,
                            edge_count(map@, region) as int,
                            region.size as int,
                        );
                    }
                }
                (Some(region), count)
            } else {
                (Some(found), best_count)
            }
        },
    }
}

/// A region inside the map has no more edges than pixels.
pub proof fn lemma_count_bound(marks: Seq<Seq<bool>>, region: Region)
    ensures
        edge_count(marks, region) <= region.size * region.size,
{
    lemma_block_bound(
        marks,
        region.x as int,
        region.y as int,
        region.size as int,
        region.size as int,
    );
}

/// A row holds no more edges than pixels.
pub proof fn lemma_row_bound(row: Seq<bool>, from: int, to: int)
    requires
        from <= to,
    ensures
        row_edges(row, from, to) <= to - from,
    decreases to - from,
{
    if to > from {
        lemma_row_bound(row, from, to - 1);
    }
}

/// A block holds no more edges than pixels.
pub proof fn lemma_block_bound(marks: Seq<Seq<bool>>, x: int, y: int, size: int, count: int)
    requires
        0 <= size,
        0 <= count,
    ensures
        block_edges(marks, x, y, size, count) <= count * size,
    decreases count,
{
    if count > 0 {
        lemma_block_bound(marks, x, y, size, count - 1);
        lemma_row_bound(marks[y + count - 1], x, x + size);
        assert((count - 1) * size + size == count * size) by (nonlinear_arith);
    }
}

/// Finds the board: of the square regions of every candidate size, at
/// every quarter-size step from the top and from the left, the one in
/// which the share of edge pixels is greatest, and of several the first.
/// If even that region holds too few edges, or the image has no room for
/// a region, no board is found.
pub fn locate(map: &EdgeMap) -> (found: Result<Region, LocateError>)
    ensures
        found == located(map@, map.spec_width() as int, map.spec_height() as int),
        found is Ok <==> has_dense_candidate(
            map@,
            map.spec_width() as int,
            map.spec_height() as int,
        ),
        match found {
            Ok(region) => {
                &&& is_board(map@, map.spec_width() as int, map.spec_height() as int, region)
                &&& region.size >= MIN_BOARD_SIZE
                &&& fits(region, map.spec_width() as int, map.spec_height() as int)
            },
            Err(error) => {
                &&& error == LocateError::NotFound
                &&& forall|other: Region| #[trigger]
                    is_candidate(other, map.spec_width() as int, map.spec_height() as int)
                        ==> !reaches_threshold(edge_count(map@, other) as int, other.size as int)
            },
        },
{
    let width = map.width();
    let height = map.height();
    let limit = if width < height {
        width
    } else {
        height
    };
    let mut best: Option<Region> = None;
    let mut best_count: u64 = 0;
    let mut size: u32 = MIN_BOARD_SIZE;
    while size <= limit
        invariant
            map.wf(),
            width == map.spec_width(),
            height == map.spec_height(),
            limit <= width,
            limit <= height,
            MIN_BOARD_SIZE <= size <= MAX_SIDE + SIZE_STEP,
            (size - MIN_BOARD_SIZE) % (SIZE_STEP as int) == 0,
            swept(map@, width as int, height as int, best, best_count as int, size as int, 0, 0),
        decreases MAX_SIDE + SIZE_STEP - size,
    {
        let step = size / 4;
        let mut y: u32 = 0;
        while y + size <= height
            invariant
                map.wf(),
                width == map.spec_width(),
                height == map.spec_height(),
                MIN_BOARD_SIZE <= size <= limit,
                limit <= width,
                limit <= height,
                (size - MIN_BOARD_SIZE) % (SIZE_STEP as int) == 0,
                step == size / 4,
                y as int % (step as int) == 0,
                y <= height,
                swept(map@, width as int, height as int, best, best_count as int, size as int, y as int, 0),
            decreases height + step - y,
        {
            let mut x: u32 = 0;
            while x + size <= width
                invariant
                    map.wf(),
                    width == map.spec_width(),
                    height == map.spec_height(),
                    MIN_BOARD_SIZE <= size <= limit,
                    limit <= width,
                    limit <= height,
                    (size - MIN_BOARD_SIZE) % (SIZE_STEP as int) == 0,
                    step == size / 4,
                    y as int % (step as int) == 0,
                    x as int % (step as int) == 0,
                    y + size <= height,
                    x <= width,
                    swept(
                        map@,
                        width as int,
                        height as int,
                        best,
                        best_count as int,
                        size as int,
                        y as int,
                        x as int,
                    ),
                decreases width + step - x,
            {
                let region = Region { x, y, size };
                let kept = consider(map, best, best_count, region);
                best = kept.0;
                best_count = kept.1;
                proof {
                    lemma_step_multiple(x as int, step as int);
                }
                x += step;
            }
            proof {
                let w = width as int;
                let h = height as int;
                assert forall|other: Region| #[trigger]
                    is_candidate(other, w, h) && before_cursor(
                        other,
                        size as int,
                        y + step,
                        0,
                    ) implies before_cursor(other, size as int, y as int, x as int) by {
                    if other.size == size {
                        lemma_next_multiple(other.y as int, y as int, step as int);
                    }
                }
                lemma_step_multiple(y as int, step as int);
            }
            y += step;
        }
        proof {
            let w = width as int;
            let h = height as int;
            assert forall|other: Region| #[trigger]
                is_candidate(other, w, h) && before_cursor(
                    other,
                    size + SIZE_STEP,
                    0,
                    0,
                ) implies before_cursor(other, size as int, y as int, 0) by {
                lemma_next_multiple(
                    other.size - MIN_BOARD_SIZE,
                    size - MIN_BOARD_SIZE,
                    SIZE_STEP as int,
                );
            }
            lemma_step_multiple(size - MIN_BOARD_SIZE, SIZE_STEP as int);
        }
        size += SIZE_STEP;
    }
    proof {
        let w = width as int;
        let h = height as int;
        assert forall|other: Region| #[trigger] is_candidate(other, w, h) implies before_cursor(
            other,
            size as int,
            0,
            0,
        ) by {}
    }
    match best {
        None => Err(LocateError::NotFound),
        Some(region) => {
            proof {
                assert(region.size * region.size <= 0x1000_0000) by (nonlinear_arith)
                    requires
                        region.size <= 16384,
                ;
                lemma_count_bound(map@, region);
            }
            if best_count * 100 >= MIN_DENSITY_PERCENT * (region.size as u64 * region.size as u64) {
                proof {
                    lemma_located_is(map@, width as int, height as int, region);
                }
                Ok(region)
            } else {
                proof {
                    let w = width as int;
                    let h = height as int;
                    assert forall|other: Region| #[trigger]
                        is_candidate(other, w, h) implies !reaches_threshold(
                        edge_count(map@, other) as int,
                        other.size as int,
                    ) by {
                        lemma_below_threshold(
                            edge_count(map@, other) as int,
                            other.size as int,
                            edge_count(map@, region) as int,
                            region.size as int,
                        );
                    }
                }
                Err(LocateError::NotFound)
            }
        },
    }
}

/// Whether a region can be cut out of an image of the given size as a
/// board: it is no smaller than a board can be, and inside the image.
pub open spec fn is_croppable(region: Region, width: int, height: int) -> bool {
    region.size >= MIN_BOARD_SIZE && fits(region, width, height)
}

/// What cutting a region out of an image gives.
pub open spec fn cropped(image: Seq<Seq<Rgb>>, width: int, region: Region) -> Result<
    Seq<Seq<Rgb>>,
    LocateError,
> {
    if is_croppable(region, width, image.len() as int) {
        Ok(crop_rows(image, region.x as int, region.y as int, region.size as int, region.size as int))
    } else {
        Err(LocateError::MalformedCrop)
    }
}

/// Cuts the region of the board out of a screenshot. A region that is
/// smaller than a board can be, or not inside the screenshot, is refused.
pub fn crop_board(screenshot: &RasterImage, region: Region) -> (cut: Result<
    RasterImage,
    LocateError,
>)
    ensures
        match cut {
            Ok(board) => {
                &&& cropped(screenshot@, screenshot.spec_width() as int, region) == Ok::<
                    Seq<Seq<Rgb>>,
                    LocateError,
                >(board@)
                &&& board.wf()
                &&& board.spec_width() == region.size
                &&& board.spec_height() == region.size
            },
            Err(error) => cropped(screenshot@, screenshot.spec_width() as int, region) == Err::<
                Seq<Seq<Rgb>>,
                LocateError,
            >(error),
        },
{
    let width = screenshot.width();
    let height = screenshot.height();
    if region.size < MIN_BOARD_SIZE || region.x as u64 + region.size as u64 > width as u64
        || region.y as u64 + region.size as u64 > height as u64 {
        return Err(LocateError::MalformedCrop);
    }
    Ok(screenshot.crop(region.x, region.y, region.size, region.size))
}

/// Where the board is in an intensity image, if there is one.
pub open spec fn board_region(image: Seq<Seq<u8>>, width: int) -> Result<Region, LocateError> {
    located(edges_of(image), width, image.len() as int)
}

/// Finds the board in an intensity image: its edges are marked, and the
/// square region in which they are densest is the board, if they are
/// dense enough there.
pub fn find_board(image: &GrayImage) -> (found: Result<Region, LocateError>)
    ensures
        found == board_region(image@, image.spec_width() as int),
        found is Ok <==> has_dense_candidate(
            edges_of(image@),
            image.spec_width() as int,
            image.spec_height() as int,
        ),
        found matches Ok(region) ==> is_croppable(
            region,
            image.spec_width() as int,
            image.spec_height() as int,
        ),
        found matches Err(error) ==> error == LocateError::NotFound,
{
    let map = detect_edges(image);
    locate(&map)
}

/// A board that is found is a square no smaller than a board can be, and
/// lies inside the image.
pub proof fn law_found_board_is_croppable(marks: Seq<Seq<bool>>, width: int, height: int)
    ensures
        located(marks, width, height) matches Ok(region) ==> is_croppable(region, width, height),
        located(marks, width, height) matches Err(error) ==> error == LocateError::NotFound,
{
    if exists|region: Region| is_board(marks, width, height, region) {
        let region = choose|region: Region| is_board(marks, width, height, region);
        assert(is_candidate(region, width, height));
    }
}

/// Where no candidate holds the share of edges that a board has, no board
/// is found.
pub proof fn law_sparse_edges_no_board(marks: Seq<Seq<bool>>, width: int, height: int)
    requires
        !has_dense_candidate(marks, width, height),
    ensures
        located(marks, width, height) == Err::<Region, LocateError>(LocateError::NotFound),
{
    assert forall|region: Region| !is_board(marks, width, height, region) by {
        if is_candidate(region, width, height) {
            assert(!reaches_threshold(edge_count(marks, region) as int, region.size as int));
        }
    }
}

/// In an image in which every pixel is as bright as the next, no pixel
/// is an edge.
pub proof fn law_uniform_image_has_no_edges(image: Seq<Seq<u8>>, value: u8)
    requires
        forall|x: int, y: int|
            0 <= y < image.len() && 0 <= x < image[y].len() ==> #[trigger] image[y][x] == value,
        forall|y: int| 0 <= y < image.len() ==> (#[trigger] image[y]).len() == image[0].len(),
    ensures
        forall|x: int, y: int| !#[trigger] is_edge(image, x, y),
{
    assert forall|x: int, y: int| gradient(image, x, y) == 0 by {
        if is_interior(image, x, y) {
            assert(image[y - 1].len() == image[0].len());
            assert(image[y].len() == image[0].len());
            assert(image[y + 1].len() == image[0].len());
            assert(image[y - 1][x - 1] == value);
            assert(image[y - 1][x] == value);
            assert(image[y - 1][x + 1] == value);
            assert(image[y][x - 1] == value);
            assert(image[y][x + 1] == value);
            assert(image[y + 1][x - 1] == value);
            assert(image[y + 1][x] == value);
            assert(image[y + 1][x + 1] == value);
        }
    }
    assert forall|x: int, y: int| !#[trigger] is_edge(image, x, y) by {
        assert(gradient(image, x, y) == 0);
    }
}

/// A row without marks holds no edges.
pub proof fn lemma_row_unmarked(row: Seq<bool>, from: int, to: int)
    requires
        0 <= from,
        to <= row.len(),
        forall|x: int| 0 <= x < row.len() ==> !#[trigger] row[x],
    ensures
        row_edges(row, from, to) == 0,
    decreases to - from,
{
    if to > from {
        lemma_row_unmarked(row, from, to - 1);
    }
}

/// A block without marks holds no edges.
pub proof fn lemma_block_unmarked(
    marks: Seq<Seq<bool>>,
    width: int,
    height: int,
    x: int,
    y: int,
    size: int,
    count: int,
)
    requires
        is_grid(marks, width, height),
        forall|i: int, j: int| 0 <= j < height && 0 <= i < width ==> !#[trigger] marks[j][i],
        0 <= x,
        0 <= y,
        0 <= size,
        x + size <= width,
        y + count <= height,
    ensures
        block_edges(marks, x, y, size, count) == 0,
    decreases count,
{
    if count > 0 {
        lemma_block_unmarked(marks, width, height, x, y, size, count - 1);
        let row = marks[y + count - 1];
        assert forall|i: int| 0 <= i < row.len() implies !#[trigger] row[i] by {
            assert(!marks[y + count - 1][i]);
        }
        lemma_row_unmarked(row, x, x + size);
    }
}

/// Where nothing is marked as an edge, no board is found.
pub proof fn law_no_edges_no_board(marks: Seq<Seq<bool>>, width: int, height: int)
    requires
        is_grid(marks, width, height),
        forall|x: int, y: int| 0 <= y < height && 0 <= x < width ==> !#[trigger] marks[y][x],
    ensures
        located(marks, width, height) == Err::<Region, LocateError>(LocateError::NotFound),
{
    assert forall|region: Region| !is_board(marks, width, height, region) by {
        if is_candidate(region, width, height) {
            lemma_block_unmarked(
                marks,
                width,
                height,
                region.x as int,
                region.y as int,
                region.size as int,
                region.size as int,
            );
            assert(region.size * region.size > 0) by (nonlinear_arith)
                requires
                    region.size >= 200,
            ;
        }
    }
}

/// In a blank image, one in which every pixel is as bright as the next,
/// no board is found.
pub proof fn law_blank_image_has_no_board(image: Seq<Seq<u8>>, width: int, value: u8)
    requires
        is_grid(image, width, image.len() as int),
        forall|x: int, y: int|
            0 <= y < image.len() && 0 <= x < width ==> #[trigger] image[y][x] == value,
    ensures
        board_region(image, width) == Err::<Region, LocateError>(LocateError::NotFound),
{
    law_uniform_image_has_no_edges(image, value);
    let marks = edges_of(image);
    assert(is_grid(marks, width, image.len() as int));
    assert forall|x: int, y: int| 0 <= y < image.len() && 0 <= x < width implies !#[trigger] marks[y][x] by {
        assert(!is_edge(image, x, y));
    }
    law_no_edges_no_board(marks, width, image.len() as int);
}

} // verus!
