use vstd::prelude::*;
use crate::rectangle::Rectangle;

verus! {

/// How glyphs are rendered, and so how the rasterizer's bitmaps are encoded.
#[derive(Debug, Copy, Clone, PartialEq, Eq, Structural)]
pub enum AtlasLoadMode {
    /// Grayscale: one coverage byte per pixel.
    Gray,
    /// Subpixel: three coverage bytes per pixel, at three times the horizontal resolution.
    LCD,
}

impl AtlasLoadMode {
    /// The mode that is used where none is chosen: subpixel rendering.
    pub fn default() -> (mode: AtlasLoadMode)
        ensures
            mode == AtlasLoadMode::LCD,
    {
        AtlasLoadMode::LCD
    }

    /// The number of source bytes that make one pixel.
    pub open spec fn bytes_per_pixel(self) -> int {
        match self {
            AtlasLoadMode::Gray => 1,
            AtlasLoadMode::LCD => 3,
        }
    }
}

/// A bitmap as the rasterizer hands it out: rows of `pitch` bytes each, of which the
/// first `width` bytes of a row are coverage values.
#[derive(Debug, Clone)]
pub struct RawBitmap {
    pub buffer: Vec<u8>,
    /// The number of coverage bytes in a row.
    pub width: i32,
    /// The number of rows.
    pub rows: i32,
    /// The distance in bytes from the start of one row to the start of the next.
    pub pitch: i32,
}

/// An image of RGB pixels, three samples to the pixel, rows from top to bottom and
/// tightly packed.
#[derive(Debug, Clone)]
pub struct PixelBuffer {
    pub width: u32,
    pub height: u32,
    pub samples: Vec<u8>,
}

/// The index of the red sample of the pixel in column `x` and row `y` of an image that
/// is `width` pixels wide.
pub open spec fn sample_offset(width: int, x: int, y: int) -> int {
    3 * (y * width + x)
}

/// Pixels that come earlier in reading order have their samples earlier in the buffer.
pub proof fn lemma_sample_offset_order(width: int, x1: int, y1: int, x2: int, y2: int)
    requires
        0 <= x1 < width,
        0 <= x2 <= width,
        0 <= y1,
        y1 < y2 || (y1 == y2 && x1 < x2),
    ensures
        0 <= sample_offset(width, x1, y1),
        sample_offset(width, x1, y1) + 3 <= sample_offset(width, x2, y2),
{
    assert(y1 * width >= 0) by (nonlinear_arith)
        requires
            0 <= y1,
            0 <= width,
    ;
    if y1 < y2 {
        assert((y1 + 1) * width <= y2 * width) by (nonlinear_arith)
            requires
                y1 + 1 <= y2,
                0 <= width,
        ;
        assert((y1 + 1) * width == y1 * width + width) by (nonlinear_arith);
    }
}

/// The samples of a pixel of an image lie within the image's buffer.
pub proof fn lemma_sample_offset_bound(width: int, height: int, x: int, y: int)
    requires
        0 <= x < width,
        0 <= y < height,
    ensures
        0 <= sample_offset(width, x, y),
        sample_offset(width, x, y) + 3 <= 3 * width * height,
{
    lemma_sample_offset_order(width, x, y, 0, height);
    assert(3 * (height * width + 0) == 3 * width * height) by (nonlinear_arith);
}

impl RawBitmap {
    /// The number of pixels in a row: a subpixel bitmap has three bytes to the pixel.
    pub open spec fn pixel_width(self, mode: AtlasLoadMode) -> int {
        match mode {
            AtlasLoadMode::Gray => self.width as int,
            AtlasLoadMode::LCD => self.width / 3,
        }
    }

    /// The index in the buffer of the first byte of the pixel in column `x` of row `y`.
    pub open spec fn source_offset(self, mode: AtlasLoadMode, x: int, y: int) -> int {
        y * self.pitch + x * mode.bytes_per_pixel()
    }

    /// The colour of the pixel in column `x` of row `y`: a coverage byte stands for a
    /// gray of that level, three subpixel bytes are red, green and blue.
    pub open spec fn pixel(self, mode: AtlasLoadMode, x: int, y: int) -> (u8, u8, u8) {
        let at = self.source_offset(mode, x, y);
        match mode {
            AtlasLoadMode::Gray => (self.buffer@[at], self.buffer@[at], self.buffer@[at]),
            AtlasLoadMode::LCD => (self.buffer@[at], self.buffer@[at + 1], self.buffer@[at + 2]),
        }
    }

    /// The bitmap can be read in this mode: its sizes are not negative, its rows run
    /// downwards, every pixel has its bytes in the buffer, and the converted image
    /// fits in memory.
    pub open spec fn readable(self, mode: AtlasLoadMode) -> bool {
        &&& self.width >= 0
        &&& self.rows >= 0
        &&& self.pitch >= 0
        &&& (self.rows > 0 && self.pixel_width(mode) > 0) ==> (self.rows - 1) * self.pitch
            + self.pixel_width(mode) * mode.bytes_per_pixel() <= self.buffer@.len()
        &&& 3 * self.pixel_width(mode) * self.rows <= usize::MAX
    }

    /// Tells whether the bitmap can be read in this mode.
    pub fn is_readable(&self, mode: AtlasLoadMode) -> (r: bool)
        ensures
            r == self.readable(mode),
    {
        if self.width < 0 || self.rows < 0 || self.pitch < 0 {
            return false;
        }
        let width: u64 = match mode {
            AtlasLoadMode::Gray => self.width as u64,
            AtlasLoadMode::LCD => (self.width / 3) as u64,
        };
        let bytes_per_pixel: u64 = match mode {
            AtlasLoadMode::Gray => 1,
            AtlasLoadMode::LCD => 3,
        };
        let rows: u64 = self.rows as u64;
        let pitch: u64 = self.pitch as u64;
        assert(0 <= width * rows <= 0x8000_0000 * 0x8000_0000) by (nonlinear_arith)
            requires
                0 <= width <= 0x8000_0000,
                0 <= rows <= 0x8000_0000,
        ;
        assert(3 * width * rows == 3 * (width * rows)) by (nonlinear_arith);
        if rows > 0 && width > 0 {
            assert(0 <= (rows - 1) * pitch <= 0x8000_0000 * 0x8000_0000) by (nonlinear_arith)
                requires
                    0 <= rows - 1 <= 0x8000_0000,
                    0 <= pitch <= 0x8000_0000,
            ;
            let needed: u64 = (rows - 1) * pitch + width * bytes_per_pixel;
            if needed > self.buffer.len() as u64 {
                return false;
            }
        }
        3 * (width * rows) <= usize::MAX as u64
    }

    /// The bytes of every pixel of a readable bitmap lie within its buffer.
    pub proof fn lemma_source_offset_bound(self, mode: AtlasLoadMode, x: int, y: int)
        requires
            self.readable(mode),
            0 <= x < self.pixel_width(mode),
            0 <= y < self.rows,
        ensures
            0 <= self.source_offset(mode, x, y),
            self.source_offset(mode, x, y) + mode.bytes_per_pixel() <= self.buffer@.len(),
            y * self.pitch >= 0,
    {
        let pitch = self.pitch as int;
        let rows = self.rows as int;
        assert(0 <= y * pitch <= (rows - 1) * pitch) by (nonlinear_arith)
            requires
                0 <= y <= rows - 1,
                0 <= pitch,
        ;
    }
}

/// The colour that a sample buffer holds for the pixel in column `x` of row `y`.
pub open spec fn pixel_of(samples: Seq<u8>, width: int, x: int, y: int) -> (u8, u8, u8) {
    let at = sample_offset(width, x, y);
    (samples[at], samples[at + 1], samples[at + 2])
}

/// Column `x1` of row `y1` comes before column `x2` of row `y2` in reading order.
pub open spec fn reads_before(x1: int, y1: int, x2: int, y2: int) -> bool {
    y1 < y2 || (y1 == y2 && x1 < x2)
}

impl PixelBuffer {
    /// The buffer holds three samples for each pixel and nothing else.
    pub open spec fn wf(self) -> bool {
        self.samples@.len() == 3 * self.width * self.height
    }

    /// The colour of the pixel in column `x` of row `y`.
    pub open spec fn pixel(self, x: int, y: int) -> (u8, u8, u8) {
        pixel_of(self.samples@, self.width as int, x, y)
    }

    /// Creates a black image of the given size.
    pub fn new(width: u32, height: u32) -> (image: Self)
        requires
            3 * width * height <= usize::MAX,
        ensures
            image.wf(),
            image.width == width,
            image.height == height,
            forall|i: int| 0 <= i < image.samples@.len() ==> image.samples@[i] == 0,
    {
        assert(width * height <= 3 * width * height) by (nonlinear_arith);
        assert(3 * width * height == width * height * 3) by (nonlinear_arith);
        let count: usize = (width as usize) * (height as usize) * 3;
        let samples: Vec<u8> = vec![0u8; count];
        Self { width, height, samples }
    }

    /// Makes an image of the given size from its samples, if there are exactly three of
    /// them for each pixel.
    pub fn from_vec(width: u32, height: u32, samples: Vec<u8>) -> (made: Option<Self>)
        ensures
            made.is_some() == (samples@.len() == 3 * width * height),
            made.is_some() ==> made.unwrap().wf() && made.unwrap().width == width
                && made.unwrap().height == height && made.unwrap().samples == samples,
    {
        assert(3 * width * height == width * height * 3) by (nonlinear_arith);
        assert(0 <= width * height <= 0xffff_ffff * 0xffff_ffff) by (nonlinear_arith)
            requires
                0 <= width <= 0xffff_ffff,
                0 <= height <= 0xffff_ffff,
        ;
        let count: u128 = (width as u128) * (height as u128) * 3;
        if samples.len() as u128 == count {
            Some(Self { width, height, samples })
        } else {
            None
        }
    }

    /// Reads the pixel in column `x` of row `y`.
    pub fn get_pixel(&self, x: u32, y: u32) -> (colour: (u8, u8, u8))
        requires
            self.wf(),
            x < self.width,
            y < self.height,
        ensures
            colour == self.pixel(x as int, y as int),
    {
        proof {
            let (w, col, row) = (self.width as int, x as int, y as int);
            lemma_sample_offset_bound(w, self.height as int, col, row);
            assert(row * w >= 0) by (nonlinear_arith)
                requires
                    0 <= row,
                    0 <= w,
            ;
            assert(self.samples.len() <= usize::MAX);
        }
        let at: usize = 3 * ((y as usize) * (self.width as usize) + (x as usize));
        (self.samples[at], self.samples[at + 1], self.samples[at + 2])
    }
}

impl PixelBuffer {
    /// Writes the pixel in column `x` of row `y` and leaves every other pixel as it is.
    pub fn put_pixel(&mut self, x: u32, y: u32, colour: (u8, u8, u8))
        requires
            old(self).wf(),
            x < old(self).width,
            y < old(self).height,
        ensures
            final(self).wf(),
            final(self).width == old(self).width,
            final(self).height == old(self).height,
            final(self).pixel(x as int, y as int) == colour,
            forall|px: int, py: int|
                0 <= px < old(self).width && 0 <= py < old(self).height && !(px == x && py == y)
                    ==> #[trigger] final(self).pixel(px, py) == old(self).pixel(px, py),
    {
        let ghost w = self.width as int;
        let ghost h = self.height as int;
        proof {
            lemma_sample_offset_bound(w, h, x as int, y as int);
            assert((y as int) * w >= 0) by (nonlinear_arith)
                requires
                    0 <= y,
                    0 <= w,
            ;
            assert(self.samples.len() <= usize::MAX);
        }
        let at: usize = 3 * ((y as usize) * (self.width as usize) + (x as usize));
        self.samples.set(at, colour.0);
        self.samples.set(at + 1, colour.1);
        self.samples.set(at + 2, colour.2);
        proof {
            assert forall|px: int, py: int|
                0 <= px < w && 0 <= py < h && !(px == x && py == y) implies #[trigger] self.pixel(
                px,
                py,
            ) == old(self).pixel(px, py) by {
                lemma_sample_offset_bound(w, h, px, py);
                if reads_before(px, py, x as int, y as int) {
                    lemma_sample_offset_order(w, px, py, x as int, y as int);
                } else {
                    lemma_sample_offset_order(w, x as int, y as int, px, py);
                }
            }
        }
    }
}

impl PixelBuffer {
    /// The whole area of the image.
    pub open spec fn area(self) -> Rectangle {
        Rectangle { top: 0, left: 0, width: self.width, height: self.height }
    }

    /// Copies the part `from` of `source` into the image so that it covers `dest`.
    /// Pixels outside `dest` stay as they are.
    pub fn copy_region(&mut self, dest: &Rectangle, source: &PixelBuffer, from: &Rectangle)
        requires
            old(self).wf(),
            source.wf(),
            dest.within(old(self).area()),
            from.within(source.area()),
            from.spec_same_size(*dest),
        ensures
            final(self).wf(),
            final(self).width == old(self).width,
            final(self).height == old(self).height,
            forall|x: int, y: int|
                0 <= x < old(self).width && 0 <= y < old(self).height
                    ==> #[trigger] final(self).pixel(x, y) == if dest.covers(x, y) {
                    source.pixel(from.left + (x - dest.left), from.top + (y - dest.top))
                } else {
                    old(self).pixel(x, y)
                },
    {
        let mut y: u32 = 0;
        while y < dest.height
            invariant
                self.wf(),
                source.wf(),
                self.width == old(self).width,
                self.height == old(self).height,
                dest.within(self.area()),
                from.within(source.area()),
                from.spec_same_size(*dest),
                0 <= y <= dest.height,
                forall|px: int, py: int|
                    0 <= px < self.width && 0 <= py < self.height ==> #[trigger] self.pixel(px, py)
                        == if dest.covers(px, py) && py - dest.top < y {
                        source.pixel(from.left + (px - dest.left), from.top + (py - dest.top))
                    } else {
                        old(self).pixel(px, py)
                    },
            decreases dest.height - y,
        {
            let mut x: u32 = 0;
            while x < dest.width
                invariant
                    self.wf(),
                    source.wf(),
                    self.width == old(self).width,
                    self.height == old(self).height,
                    dest.within(self.area()),
                    from.within(source.area()),
                    from.spec_same_size(*dest),
                    0 <= y < dest.height,
                    0 <= x <= dest.width,
                    forall|px: int, py: int|
                        0 <= px < self.width && 0 <= py < self.height ==> #[trigger] self.pixel(
                            px,
                            py,
                        ) == if dest.covers(px, py) && reads_before(
                            px - dest.left,
                            py - dest.top,
                            x as int,
                            y as int,
                        ) {
                            source.pixel(from.left + (px - dest.left), from.top + (py - dest.top))
                        } else {
                            old(self).pixel(px, py)
                        },
                decreases dest.width - x,
            {
                let colour = source.get_pixel(from.left + x, from.top + y);
                self.put_pixel(dest.left + x, dest.top + y, colour);
                x += 1;
            }
            y += 1;
        }
    }
}

/// Converts a rasterizer bitmap into an RGB image of the bitmap's size in pixels.
///
/// A grayscale byte becomes a gray pixel of that level. Three consecutive subpixel bytes
/// become red, green and blue of one pixel, so the image is a third as wide as the
/// bitmap has bytes in a row. Rows are read `pitch` bytes apart and written tightly
/// packed.
pub fn convert_bitmap(bitmap: &RawBitmap, mode: AtlasLoadMode) -> (image: PixelBuffer)
    requires
        bitmap.readable(mode),
    ensures
        image.wf(),
        image.width == bitmap.pixel_width(mode),
        image.height == bitmap.rows,
        forall|x: int, y: int|
            0 <= x < image.width && 0 <= y < image.height ==> #[trigger] image.pixel(x, y)
                == bitmap.pixel(mode, x, y),
{
    let width: u32 = match mode {
        AtlasLoadMode::Gray => bitmap.width as u32,
        AtlasLoadMode::LCD => bitmap.width as u32 / 3,
    };
    let height: u32 = bitmap.rows as u32;
    let pitch: usize = bitmap.pitch as usize;
    let ghost w = width as int;

    let mut samples: Vec<u8> = Vec::new();
    let mut y: usize = 0;
    while y < height as usize
        invariant
            bitmap.readable(mode),
            w == width == bitmap.pixel_width(mode),
            height == bitmap.rows,
            pitch == bitmap.pitch,
            0 <= y <= height,
            samples@.len() == sample_offset(w, 0, y as int),
            forall|px: int, py: int|
                0 <= px < w && 0 <= py < y ==> #[trigger] pixel_of(samples@, w, px, py)
                    == bitmap.pixel(mode, px, py),
        decreases height - y,
    {
        let mut x: usize = 0;
        while x < width as usize
            invariant
                bitmap.readable(mode),
                w == width == bitmap.pixel_width(mode),
                height == bitmap.rows,
                pitch == bitmap.pitch,
                0 <= y < height,
                0 <= x <= width,
                samples@.len() == sample_offset(w, x as int, y as int),
                forall|px: int, py: int|
                    0 <= px < w && 0 <= py && reads_before(px, py, x as int, y as int)
                        ==> #[trigger] pixel_of(samples@, w, px, py) == bitmap.pixel(mode, px, py),
            decreases width - x,
        {
            proof {
                bitmap.lemma_source_offset_bound(mode, x as int, y as int);
                assert(y * pitch == (y as int) * (bitmap.pitch as int));
                assert(0 <= y * pitch <= bitmap.buffer.len() <= usize::MAX);
            }
            let ghost before = samples@;
            match mode {
                AtlasLoadMode::Gray => {
                    let src: usize = y * pitch + x;
                    let gray: u8 = bitmap.buffer[src];
                    samples.push(gray);
                    samples.push(gray);
                    samples.push(gray);
                },
                AtlasLoadMode::LCD => {
                    let src: usize = y * pitch + x * 3;
                    let r: u8 = bitmap.buffer[src];
                    let g: u8 = bitmap.buffer[src + 1];
                    let b: u8 = bitmap.buffer[src + 2];
                    samples.push(r);
                    samples.push(g);
                    samples.push(b);
                },
            }
            proof {
                assert(pixel_of(samples@, w, x as int, y as int) == bitmap.pixel(
                    mode,
                    x as int,
                    y as int,
                ));
                assert forall|px: int, py: int|
                    0 <= px < w && 0 <= py && reads_before(
                        px,
                        py,
                        x + 1,
                        y as int,
                    ) implies #[trigger] pixel_of(samples@, w, px, py) == bitmap.pixel(
                    mode,
                    px,
                    py,
                ) by {
                    if reads_before(px, py, x as int, y as int) {
                        lemma_sample_offset_order(w, px, py, x as int, y as int);
                        assert(pixel_of(before, w, px, py) == bitmap.pixel(mode, px, py));
                    }
                }
            }
            x += 1;
        }
        proof {
            assert(sample_offset(w, w, y as int) == sample_offset(w, 0, y + 1)) by (nonlinear_arith);
        }
        y += 1;
    }
    proof {
        assert(sample_offset(w, 0, height as int) == 3 * width * height) by (nonlinear_arith)
            requires
                w == width,
        ;
    }
    PixelBuffer { width, height, samples }
}

} // verus!
