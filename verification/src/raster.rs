//! Images as grids of samples: colour images with three samples to the
//! pixel, and intensity images with one.

use image::imageops::{resize, FilterType};
use image::ImageBuffer;
use vstd::prelude::*;

verus! {

/// The largest width and height that an image may have.
pub const MAX_SIDE: u32 = 16384;

/// The colour of a pixel.
#[derive(Clone, Copy, Debug, PartialEq, Eq, Structural)]
pub struct Rgb {
    pub red: u8,
    pub green: u8,
    pub blue: u8,
}

/// A colour image: red, green and blue for each pixel, row by row from
/// the top. Its view is the rows of its pixels.
#[derive(Debug)]
pub struct RasterImage {
    width: u32,
    height: u32,
    data: Vec<u8>,
}

/// An intensity image: one sample for each pixel, row by row from the
/// top. Its view is the rows of its pixels.
#[derive(Debug)]
pub struct GrayImage {
    width: u32,
    height: u32,
    data: Vec<u8>,
}

/// The sample of channel `c` of the pixel `(x, y)`, in an image that is
/// `width` pixels wide and has `channels` samples to the pixel.
pub open spec fn sample_at(
    data: Seq<u8>,
    channels: int,
    width: int,
    x: int,
    y: int,
    c: int,
) -> u8 {
    data[(y * width + x) * channels + c]
}

/// The intensity of a colour, from 0 to 255: red, green and blue weighted
/// as the eye does.
pub open spec fn luma(colour: Rgb) -> u8 {
    ((2126 * colour.red + 7152 * colour.green + 722 * colour.blue) / 10000) as u8
}

/// Whether `rows` are the rows of an image of the given size.
pub open spec fn is_grid<T>(rows: Seq<Seq<T>>, width: int, height: int) -> bool {
    &&& rows.len() == height
    &&& forall|y: int| 0 <= y < height ==> (#[trigger] rows[y]).len() == width
}

/// The rows of the intensity image that `data` holds.
pub open spec fn gray_rows(data: Seq<u8>, width: int, height: int) -> Seq<Seq<u8>> {
    Seq::new(height as nat, |y: int| Seq::new(width as nat, |x: int| sample_at(data, 1, width, x, y, 0)))
}

/// The rows of the colour image that `data` holds.
pub open spec fn rgb_rows(data: Seq<u8>, width: int, height: int) -> Seq<Seq<Rgb>> {
    Seq::new(
        height as nat,
        |y: int|
            Seq::new(
                width as nat,
                |x: int|
                    Rgb {
                        red: sample_at(data, 3, width, x, y, 0),
                        green: sample_at(data, 3, width, x, y, 1),
                        blue: sample_at(data, 3, width, x, y, 2),
                    },
            ),
    )
}

/// The part of an image that starts at `(x, y)` and is `width` by
/// `height` pixels.
pub open spec fn crop_rows<T>(rows: Seq<Seq<T>>, x: int, y: int, width: int, height: int) -> Seq<
    Seq<T>,
> {
    Seq::new(height as nat, |j: int| Seq::new(width as nat, |i: int| rows[y + j][x + i]))
}

/// The intensities of a colour image.
pub open spec fn intensity_rows(rows: Seq<Seq<Rgb>>) -> Seq<Seq<u8>> {
    Seq::new(rows.len(), |y: int| Seq::new(rows[y].len(), |x: int| luma(rows[y][x])))
}

/// A black image of the given size.
pub open spec fn black_rows(width: int, height: int) -> Seq<Seq<Rgb>> {
    Seq::new(
        height as nat,
        |y: int| Seq::new(width as nat, |x: int| Rgb { red: 0, green: 0, blue: 0 }),
    )
}

/// What the `image` crate's `resize` with the `Triangle` filter makes of
/// a colour image, for the new width and height.
pub uninterp spec fn resampled(rows: Seq<Seq<Rgb>>, new_width: nat, new_height: nat) -> Seq<Seq<Rgb>>;

/// An image brought to a new size: one that has that size already stays
/// as it is, one without pixels becomes black, and any other is
/// resampled.
pub open spec fn scaled_rows(rows: Seq<Seq<Rgb>>, width: int, new_width: int, new_height: int) -> Seq<
    Seq<Rgb>,
> {
    if width == new_width && rows.len() == new_height {
        rows
    } else if width == 0 || rows.len() == 0 {
        black_rows(new_width, new_height)
    } else {
        resampled(rows, new_width as nat, new_height as nat)
    }
}

/// Pixels inside an image have their samples inside its data.
pub proof fn lemma_sample_index(channels: int, width: int, height: int, x: int, y: int, c: int)
    requires
        0 <= x < width,
        0 <= y < height,
        0 <= c < channels,
    ensures
        0 <= (y * width + x) * channels + c < width * height * channels,
        0 <= y * width + x < width * height,
{
    assert(0 <= y * width + x < width * height) by (nonlinear_arith)
        requires
            0 <= x < width,
            0 <= y < height,
    ;
    assert(0 <= (y * width + x) * channels + c < width * height * channels) by (nonlinear_arith)
        requires
            0 <= y * width + x < width * height,
            0 <= c < channels,
    ;
}

/// Sizes within the limit multiply without overflow.
pub proof fn lemma_size_fits(width: int, height: int)
    requires
        0 <= width <= MAX_SIDE,
        0 <= height <= MAX_SIDE,
    ensures
        0 <= width * height <= 0x1000_0000,
        0 <= 3 * (width * height) <= 0x3000_0000,
{
    assert(0 <= width * height <= 0x1000_0000) by (nonlinear_arith)
        requires
            0 <= width <= 16384,
            0 <= height <= 16384,
    ;
}

/// The part of an image that starts at `(x, y)` and is `width` by
/// `height` pixels.
fn crop_samples(
    data: &Vec<u8>,
    channels: usize,
    source_width: u32,
    source_height: u32,
    x: u32,
    y: u32,
    width: u32,
    height: u32,
) -> (out: Vec<u8>)
    requires
        channels == 1 || channels == 3,
        source_width <= MAX_SIDE,
        source_height <= MAX_SIDE,
        data@.len() == source_width * source_height * channels,
        x + width <= source_width,
        y + height <= source_height,
    ensures
        out@.len() == width * height * channels,
        forall|i: int, j: int, c: int|
            0 <= i < width && 0 <= j < height && 0 <= c < channels ==> #[trigger] sample_at(
                out@,
                channels as int,
                width as int,
                i,
                j,
                c,
            ) == sample_at(data@, channels as int, source_width as int, x + i, y + j, c),
{
    let mut out: Vec<u8> = Vec::new();
    let mut j: u32 = 0;
    while j < height
        invariant
            j <= height,
            channels == 1 || channels == 3,
            source_width <= MAX_SIDE,
            source_height <= MAX_SIDE,
            data@.len() == source_width * source_height * channels,
            x + width <= source_width,
            y + height <= source_height,
            out@.len() == j * width * channels,
            forall|i: int, jj: int, c: int|
                0 <= i < width && 0 <= jj < j && 0 <= c < channels ==> #[trigger] sample_at(
                    out@,
                    channels as int,
                    width as int,
                    i,
                    jj,
                    c,
                ) == sample_at(data@, channels as int, source_width as int, x + i, y + jj, c),
        decreases height - j,
    {
        let mut i: u32 = 0;
        while i < width
            invariant
                i <= width,
                j < height,
                channels == 1 || channels == 3,
                source_width <= MAX_SIDE,
                source_height <= MAX_SIDE,
                data@.len() == source_width * source_height * channels,
                x + width <= source_width,
                y + height <= source_height,
                out@.len() == (j * width + i) * channels,
                forall|ii: int, jj: int, c: int|
                    0 <= ii < width && 0 <= jj < j && 0 <= c < channels ==> #[trigger] sample_at(
                        out@,
                        channels as int,
                        width as int,
                        ii,
                        jj,
                        c,
                    ) == sample_at(
                        data@,
                        channels as int,
                        source_width as int,
                        x + ii,
                        y + jj,
                        c,
                    ),
                forall|ii: int, c: int|
                    0 <= ii < i && 0 <= c < channels ==> #[trigger] sample_at(
                        out@,
                        channels as int,
                        width as int,
                        ii,
                        j as int,
                        c,
                    ) == sample_at(
                        data@,
                        channels as int,
                        source_width as int,
                        x + ii,
                        y + j,
                        c,
                    ),
            decreases width - i,
        {
            proof {
                lemma_size_fits(source_width as int, source_height as int);
                lemma_sample_index(
                    channels as int,
                    source_width as int,
                    source_height as int,
                    x + i,
                    y + j,
                    0,
                );
                lemma_sample_index(
                    channels as int,
                    source_width as int,
                    source_height as int,
                    x + i,
                    y + j,
                    channels - 1,
                );
            }
            let base: usize = ((y + j) as usize * source_width as usize + (x + i) as usize)
                * channels;
            let ghost before = out@;
            assert(base + channels <= data.len());
            let mut c: usize = 0;
            while c < channels
                invariant
                    c <= channels,
                    channels == 1 || channels == 3,
                    base == ((y + j) * source_width + (x + i)) * channels,
                    base + channels <= data@.len(),
                    base + channels <= usize::MAX,
                    out@ == before + data@.subrange(base as int, base + c),
                decreases channels - c,
            {
                out.push(data[base + c]);
                c += 1;
                assert(data@.subrange(base as int, base + c) == data@.subrange(
                    base as int,
                    base + c - 1,
                ).push(data@[base + c - 1]));
            }
            proof {
                let w = width as int;
                let ch = channels as int;
                assert((j * w + i) * ch + ch == (j * w + (i + 1)) * ch) by (nonlinear_arith);
                assert forall|ii: int, jj: int, cc: int|
                    0 <= ii < width && 0 <= jj < j && 0 <= cc < channels implies #[trigger] sample_at(
                    out@,
                    ch,
                    w,
                    ii,
                    jj,
                    cc,
                ) == sample_at(data@, ch, source_width as int, x + ii, y + jj, cc) by {
                    lemma_sample_index(ch, w, j as int, ii, jj, cc);
                    assert(w * j * ch <= (j * w + i) * ch) by (nonlinear_arith)
                        requires
                            0 <= i,
                            0 <= ch,
                            0 <= j,
                            0 <= w,
                    ;
                    assert(sample_at(before, ch, w, ii, jj, cc) == sample_at(out@, ch, w, ii, jj, cc));
                }
                assert forall|ii: int, cc: int|
                    0 <= ii < i + 1 && 0 <= cc < channels implies #[trigger] sample_at(
                    out@,
                    ch,
                    w,
                    ii,
                    j as int,
                    cc,
                ) == sample_at(data@, ch, source_width as int, x + ii, y + j, cc) by {
                    if ii < i {
                        assert((j * w + ii) * ch + cc < (j * w + i) * ch) by (nonlinear_arith)
                            requires
                                0 <= ii < i,
                                0 <= cc < ch,
                        ;
                        assert(sample_at(before, ch, w, ii, j as int, cc) == sample_at(
                            out@,
                            ch,
                            w,
                            ii,
                            j as int,
                            cc,
                        ));
                    } else {
                        assert(out@[(j * w + i) * ch + cc] == data@.subrange(
                            base as int,
                            base + ch,
                        )[cc]);
                    }
                }
            }
            i += 1;
        }
        proof {
            assert((j * width + width) * channels == (j + 1) * width * channels)
                by (nonlinear_arith);
        }
        j += 1;
    }
    proof {
        assert(height * width * channels == width * height * channels) by (nonlinear_arith);
    }
    out
}

impl View for GrayImage {
    type V = Seq<Seq<u8>>;

    closed spec fn view(&self) -> Seq<Seq<u8>> {
        gray_rows(self.data@, self.width as int, self.height as int)
    }
}

impl View for RasterImage {
    type V = Seq<Seq<Rgb>>;

    closed spec fn view(&self) -> Seq<Seq<Rgb>> {
        rgb_rows(self.data@, self.width as int, self.height as int)
    }
}

impl GrayImage {
    /// How many pixels wide the image is.
    pub closed spec fn spec_width(&self) -> u32 {
        self.width
    }

    /// How many pixels high the image is.
    pub closed spec fn spec_height(&self) -> u32 {
        self.height
    }

    /// The sides are within the limit, and each row holds as many pixels
    /// as the image is wide.
    pub open spec fn wf(&self) -> bool {
        &&& self.spec_width() <= MAX_SIDE
        &&& self.spec_height() <= MAX_SIDE
        &&& is_grid(self@, self.spec_width() as int, self.spec_height() as int)
    }

    #[verifier::type_invariant]
    closed spec fn inv(&self) -> bool {
        &&& self.width <= MAX_SIDE
        &&& self.height <= MAX_SIDE
        &&& self.data@.len() == self.width * self.height
    }

    /// An image of the given size from its samples, row by row. There
    /// must be one sample for each pixel, and no side may be longer than
    /// `MAX_SIDE`.
    pub fn new(width: u32, height: u32, data: Vec<u8>) -> (image: Option<GrayImage>)
        ensures
            match image {
                Some(made) => {
                    &&& made.wf()
                    &&& made.spec_width() == width
                    &&& made.spec_height() == height
                    &&& made@ == gray_rows(data@, width as int, height as int)
                },
                None => width > MAX_SIDE || height > MAX_SIDE || data@.len() != width * height,
            },
    {
        if width > MAX_SIDE || height > MAX_SIDE {
            return None;
        }
        proof {
            lemma_size_fits(width as int, height as int);
        }
        if data.len() != width as usize * height as usize {
            return None;
        }
        Some(GrayImage { width, height, data })
    }

    /// How many pixels wide the image is.
    #[verifier::when_used_as_spec(spec_width)]
    pub fn width(&self) -> (w: u32)
        ensures
            w == self.spec_width(),
            self.wf(),
    {
        proof {
            use_type_invariant(self);
        }
        self.width
    }

    /// How many pixels high the image is.
    #[verifier::when_used_as_spec(spec_height)]
    pub fn height(&self) -> (h: u32)
        ensures
            h == self.spec_height(),
            self.wf(),
    {
        proof {
            use_type_invariant(self);
        }
        self.height
    }

    /// The intensity of the pixel `(x, y)`.
    pub fn get(&self, x: u32, y: u32) -> (p: u8)
        requires
            x < self.spec_width(),
            y < self.spec_height(),
        ensures
            p == self@[y as int][x as int],
    {
        proof {
            use_type_invariant(self);
            lemma_size_fits(self.width as int, self.height as int);
            lemma_sample_index(1, self.width as int, self.height as int, x as int, y as int, 0);
        }
        self.data[y as usize * self.width as usize + x as usize]
    }

    /// The part of the image that starts at `(x, y)` and is `width` by
    /// `height` pixels.
    pub fn crop(&self, x: u32, y: u32, width: u32, height: u32) -> (part: GrayImage)
        requires
            x + width <= self.spec_width(),
            y + height <= self.spec_height(),
        ensures
            part.wf(),
            part.spec_width() == width,
            part.spec_height() == height,
            part@ == crop_rows(self@, x as int, y as int, width as int, height as int),
    {
        proof {
            use_type_invariant(self);
            assert(self.width * self.height * 1 == self.width * self.height) by (nonlinear_arith);
            assert(width * height * 1 == width * height) by (nonlinear_arith);
        }
        let data = crop_samples(&self.data, 1, self.width, self.height, x, y, width, height);
        let part = GrayImage { width, height, data };
        proof {
            let rows = crop_rows(self@, x as int, y as int, width as int, height as int);
            assert forall|j: int| 0 <= j < height implies #[trigger] part@[j] == rows[j] by {
                assert forall|i: int| 0 <= i < width implies #[trigger] part@[j][i] == rows[j][i] by {
                    assert(sample_at(part.data@, 1, width as int, i, j, 0) == sample_at(
                        self.data@,
                        1,
                        self.width as int,
                        x + i,
                        y + j,
                        0,
                    ));
                }
                assert(part@[j] =~= rows[j]);
            }
            assert(part@ =~= rows);
        }
        part
    }
}

impl RasterImage {
    /// How many pixels wide the image is.
    pub closed spec fn spec_width(&self) -> u32 {
        self.width
    }

    /// How many pixels high the image is.
    pub closed spec fn spec_height(&self) -> u32 {
        self.height
    }

    /// The sides are within the limit, and each row holds as many pixels
    /// as the image is wide.
    pub open spec fn wf(&self) -> bool {
        &&& self.spec_width() <= MAX_SIDE
        &&& self.spec_height() <= MAX_SIDE
        &&& is_grid(self@, self.spec_width() as int, self.spec_height() as int)
    }

    #[verifier::type_invariant]
    closed spec fn inv(&self) -> bool {
        &&& self.width <= MAX_SIDE
        &&& self.height <= MAX_SIDE
        &&& self.data@.len() == 3 * (self.width * self.height)
    }

    /// An image of the given size from its samples: red, green and blue
    /// of each pixel, row by row. There must be three samples for each
    /// pixel, and no side may be longer than `MAX_SIDE`.
    pub fn new(width: u32, height: u32, data: Vec<u8>) -> (image: Option<RasterImage>)
        ensures
            match image {
                Some(made) => {
                    &&& made.wf()
                    &&& made.spec_width() == width
                    &&& made.spec_height() == height
                    &&& made@ == rgb_rows(data@, width as int, height as int)
                },
                None => width > MAX_SIDE || height > MAX_SIDE || data@.len() != 3 * (width
                    * height),
            },
    {
        if width > MAX_SIDE || height > MAX_SIDE {
            return None;
        }
        proof {
            lemma_size_fits(width as int, height as int);
        }
        if data.len() != 3 * (width as usize * height as usize) {
            return None;
        }
        Some(RasterImage { width, height, data })
    }

    /// How many pixels wide the image is.
    #[verifier::when_used_as_spec(spec_width)]
    pub fn width(&self) -> (w: u32)
        ensures
            w == self.spec_width(),
            self.wf(),
    {
        proof {
            use_type_invariant(self);
        }
        self.width
    }

    /// How many pixels high the image is.
    #[verifier::when_used_as_spec(spec_height)]
    pub fn height(&self) -> (h: u32)
        ensures
            h == self.spec_height(),
            self.wf(),
    {
        proof {
            use_type_invariant(self);
        }
        self.height
    }

    /// The colour of the pixel `(x, y)`.
    pub fn get(&self, x: u32, y: u32) -> (colour: Rgb)
        requires
            x < self.spec_width(),
            y < self.spec_height(),
        ensures
            colour == self@[y as int][x as int],
    {
        proof {
            use_type_invariant(self);
            lemma_size_fits(self.width as int, self.height as int);
            lemma_sample_index(3, self.width as int, self.height as int, x as int, y as int, 0);
            lemma_sample_index(3, self.width as int, self.height as int, x as int, y as int, 2);
            assert(self.width * self.height * 3 == 3 * (self.width * self.height))
                by (nonlinear_arith);
        }
        let base: usize = (y as usize * self.width as usize + x as usize) * 3;
        Rgb { red: self.data[base], green: self.data[base + 1], blue: self.data[base + 2] }
    }

    /// The part of the image that starts at `(x, y)` and is `width` by
    /// `height` pixels.
    pub fn crop(&self, x: u32, y: u32, width: u32, height: u32) -> (part: RasterImage)
        requires
            x + width <= self.spec_width(),
            y + height <= self.spec_height(),
        ensures
            part.wf(),
            part.spec_width() == width,
            part.spec_height() == height,
            part@ == crop_rows(self@, x as int, y as int, width as int, height as int),
    {
        proof {
            use_type_invariant(self);
            assert(self.width * self.height * 3 == 3 * (self.width * self.height))
                by (nonlinear_arith);
            assert(width * height * 3 == 3 * (width * height)) by (nonlinear_arith);
        }
        let data = crop_samples(&self.data, 3, self.width, self.height, x, y, width, height);
        let part = RasterImage { width, height, data };
        proof {
            let rows = crop_rows(self@, x as int, y as int, width as int, height as int);
            assert forall|j: int| 0 <= j < height implies #[trigger] part@[j] == rows[j] by {
                assert forall|i: int| 0 <= i < width implies #[trigger] part@[j][i] == rows[j][i] by {
                    assert forall|c: int| 0 <= c < 3 implies sample_at(
                        part.data@,
                        3,
                        width as int,
                        i,
                        j,
                        c,
                    ) == sample_at(self.data@, 3, self.width as int, x + i, y + j, c) by {}
                }
                assert(part@[j] =~= rows[j]);
            }
            assert(part@ =~= rows);
        }
        part
    }

    /// The intensity image: each pixel with its colour weighted into one
    /// sample.
    pub fn to_intensity(&self) -> (gray: GrayImage)
        ensures
            gray.wf(),
            gray.spec_width() == self.spec_width(),
            gray.spec_height() == self.spec_height(),
            gray@ == intensity_rows(self@),
    {
        proof {
            use_type_invariant(self);
            lemma_size_fits(self.width as int, self.height as int);
        }
        let count: usize = self.width as usize * self.height as usize;
        let mut data: Vec<u8> = Vec::new();
        let mut k: usize = 0;
        while k < count
            invariant
                k <= count,
                count == self.width * self.height,
                count <= 0x1000_0000,
                self.data@.len() == 3 * count,
                data@.len() == k,
                forall|p: int|
                    0 <= p < k ==> #[trigger] data@[p] == luma(
                        Rgb {
                            red: self.data@[3 * p],
                            green: self.data@[3 * p + 1],
                            blue: self.data@[3 * p + 2],
                        },
                    ),
            decreases count - k,
        {
            let red: u32 = self.data[3 * k] as u32;
            let green: u32 = self.data[3 * k + 1] as u32;
            let blue: u32 = self.data[3 * k + 2] as u32;
            let weighted: u32 = (2126 * red + 7152 * green + 722 * blue) / 10000;
            data.push(weighted as u8);
            k += 1;
        }
        let gray = GrayImage { width: self.width, height: self.height, data };
        proof {
            let rows = intensity_rows(self@);
            assert forall|y: int| 0 <= y < self.height implies #[trigger] gray@[y] == rows[y] by {
                assert forall|x: int| 0 <= x < self.width implies #[trigger] gray@[y][x]
                    == rows[y][x] by {
                    lemma_sample_index(1, self.width as int, self.height as int, x, y, 0);
                    let p = y * self.width + x;
                    assert((y * self.width + x) * 1 + 0 == p) by (nonlinear_arith)
                        requires
                            p == y * self.width + x,
                    ;
                    assert((y * self.width + x) * 3 + 0 == 3 * p && (y * self.width + x) * 3 + 1
                        == 3 * p + 1 && (y * self.width + x) * 3 + 2 == 3 * p + 2)
                        by (nonlinear_arith)
                        requires
                            p == y * self.width + x,
                    ;
                    assert(gray.data@[p] == luma(
                        Rgb {
                            red: self.data@[3 * p],
                            green: self.data@[3 * p + 1],
                            blue: self.data@[3 * p + 2],
                        },
                    ));
                }
                assert(gray@[y] =~= rows[y]);
            }
            assert(gray@ =~= rows);
        }
        gray
    }

    /// The image brought to `width` by `height` pixels. An image that has
    /// that size already stays as it is, and one without pixels becomes
    /// black; any other is resampled.
    pub fn scaled_to(&self, width: u32, height: u32) -> (scaled: RasterImage)
        requires
            1 <= width <= MAX_SIDE,
            1 <= height <= MAX_SIDE,
        ensures
            scaled.wf(),
            scaled.spec_width() == width,
            scaled.spec_height() == height,
            scaled@ == scaled_rows(self@, self.spec_width() as int, width as int, height as int),
    {
        proof {
            use_type_invariant(self);
            lemma_size_fits(width as int, height as int);
            lemma_size_fits(self.width as int, self.height as int);
        }
        if self.width == width && self.height == height {
            let data = self.data.clone();
            assert(data@ == self.data@);
            RasterImage { width, height, data }
        } else if self.width == 0 || self.height == 0 {
            let count: usize = 3 * (width as usize * height as usize);
            let mut data: Vec<u8> = Vec::new();
            let mut k: usize = 0;
            while k < count
                invariant
                    k <= count,
                    data@.len() == k,
                    forall|i: int| 0 <= i < k ==> #[trigger] data@[i] == 0,
                decreases count - k,
            {
                data.push(0);
                k += 1;
            }
            let scaled = RasterImage { width, height, data };
            proof {
                let rows = black_rows(width as int, height as int);
                assert forall|y: int| 0 <= y < height implies #[trigger] scaled@[y] == rows[y] by {
                    assert forall|x: int| 0 <= x < width implies #[trigger] scaled@[y][x]
                        == rows[y][x] by {
                        lemma_sample_index(3, width as int, height as int, x, y, 0);
                        lemma_sample_index(3, width as int, height as int, x, y, 1);
                        lemma_sample_index(3, width as int, height as int, x, y, 2);
                        assert(width * height * 3 == 3 * (width * height)) by (nonlinear_arith);
                    }
                    assert(scaled@[y] =~= rows[y]);
                }
                assert(scaled@ =~= rows);
            }
            scaled
        } else {
            resample(self, width, height)
        }
    }
}

/// Calls `image::imageops::resize` with the `Triangle` filter on the
/// image. The result has `new_width` by `new_height` pixels, as the buffer
/// that `resize` allocates for it; what its pixels are is given the name
/// `resampled`. The `Triangle` kernel and the weighted sums use only
/// addition, multiplication, division and rounding, so the result depends
/// on the pixels alone.
#[verifier::external_body]
fn resample(image: &RasterImage, new_width: u32, new_height: u32) -> (out: RasterImage)
    requires
        1 <= image.spec_width() <= MAX_SIDE,
        1 <= image.spec_height() <= MAX_SIDE,
        1 <= new_width <= MAX_SIDE,
        1 <= new_height <= MAX_SIDE,
    ensures
        out@ == resampled(image@, new_width as nat, new_height as nat),
        is_grid(out@, new_width as int, new_height as int),
        out.spec_width() == new_width,
        out.spec_height() == new_height,
{
    let source = ImageBuffer::<image::Rgb<u8>, &[u8]>::from_raw(
        image.width,
        image.height,
        image.data.as_slice(),
    ).unwrap();
    let data = resize(&source, new_width, new_height, FilterType::Triangle).into_raw();
    RasterImage { width: new_width, height: new_height, data }
}

} // verus!
