use vstd::prelude::*;

verus! {

/// Why a render cannot be set up.
#[derive(Clone, Copy, Debug, PartialEq, Eq, Structural)]
pub enum ConfigError {
    /// The image has no columns.
    ZeroWidth,
    /// The image has no rows.
    ZeroHeight,
    /// The world has no member.
    EmptyWorld,
    /// The number of bytes of the image does not fit in `usize`.
    TooLarge,
}

/// The three bytes of one pixel.
#[derive(Clone, Copy, Debug, PartialEq, Eq, Structural)]
pub struct Rgb {
    pub r: u8,
    pub g: u8,
    pub b: u8,
}

/// The layout of a frame buffer: row after row, three bytes for each pixel,
/// red first.
#[derive(Clone, Copy, Debug, PartialEq, Eq, Structural)]
pub struct Frame {
    pub width: usize,
    pub height: usize,
}

/// A scaled channel cut to the range of a byte.
pub open spec fn clamp_to_byte(scaled: int) -> int {
    if scaled < 0 {
        0
    } else if scaled > 255 {
        255
    } else {
        scaled
    }
}

/// The byte of a channel, from its value scaled by 256 and cut to a whole
/// number. A channel at full intensity scales to 256, which no byte holds: it
/// is stored as 255, and a negative one as 0.
pub fn channel_byte(scaled: i64) -> (byte: u8)
    ensures
        byte == clamp_to_byte(scaled as int),
{
    if scaled < 0 {
        0
    } else if scaled > 255 {
        255
    } else {
        scaled as u8
    }
}

impl Rgb {
    /// The pixel of three scaled channels.
    pub fn from_scaled(r: i64, g: i64, b: i64) -> (pixel: Rgb)
        ensures
            pixel.r == clamp_to_byte(r as int),
            pixel.g == clamp_to_byte(g as int),
            pixel.b == clamp_to_byte(b as int),
    {
        Rgb { r: channel_byte(r), g: channel_byte(g), b: channel_byte(b) }
    }
}

impl Frame {
    /// The frame has pixels, and its length in bytes fits in `usize`.
    pub open spec fn wf(&self) -> bool {
        self.width > 0 && self.height > 0 && self.width * self.height * 3 <= usize::MAX
    }

    /// The number of bytes of one row.
    pub open spec fn row_bytes_spec(&self) -> int {
        self.width * 3
    }

    /// The number of bytes of the whole frame.
    pub open spec fn len_spec(&self) -> int {
        self.width * self.height * 3
    }

    /// The offset of the first byte of row `y`.
    pub open spec fn band_start(&self, y: int) -> int {
        y * (self.width * 3)
    }

    /// The offset just behind the last byte of row `y`.
    pub open spec fn band_end(&self, y: int) -> int {
        (y + 1) * (self.width * 3)
    }

    /// Checks the sizes of a render of a `width` by `height` image of a world
    /// with `members` members. The first fault in the order zero width, zero
    /// height, empty world, too large is the one reported.
    pub fn configure(width: usize, height: usize, members: usize) -> (frame: Result<
        Frame,
        ConfigError,
    >)
        ensures
            frame is Ok <==> width > 0 && height > 0 && members > 0 && width * height * 3
                <= usize::MAX,
            match frame {
                Ok(f) => f.width == width && f.height == height && f.wf(),
                Err(ConfigError::ZeroWidth) => width == 0,
                Err(ConfigError::ZeroHeight) => width > 0 && height == 0,
                Err(ConfigError::EmptyWorld) => width > 0 && height > 0 && members == 0,
                Err(ConfigError::TooLarge) => width > 0 && height > 0 && members > 0 && width
                    * height * 3 > usize::MAX,
            },
    {
        if width == 0 {
            return Err(ConfigError::ZeroWidth);
        }
        if height == 0 {
            return Err(ConfigError::ZeroHeight);
        }
        if members == 0 {
            return Err(ConfigError::EmptyWorld);
        }
        match width.checked_mul(height) {
            Some(pixels) => match pixels.checked_mul(3) {
                Some(_) => Ok(Frame { width, height }),
                None => Err(ConfigError::TooLarge),
            },
            None => {
                proof {
                    assert(width * height * 3 >= width * height) by (nonlinear_arith)
                        requires
                            width > 0,
                            height > 0,
                    ;
                }
                Err(ConfigError::TooLarge)
            },
        }
    }

    pub fn row_bytes(&self) -> (bytes: usize)
        requires
            self.wf(),
        ensures
            bytes == self.row_bytes_spec(),
    {
        proof {
            self.lemma_band_within(0);
        }
        self.width * 3
    }

    pub fn len(&self) -> (bytes: usize)
        requires
            self.wf(),
        ensures
            bytes == self.len_spec(),
    {
        proof {
            assert(self.width * self.height <= self.width * self.height * 3) by (nonlinear_arith)
                requires
                    self.width > 0,
                    self.height > 0,
            ;
        }
        self.width * self.height * 3
    }

    /// The range of bytes of row `y`, as its start and the offset just behind
    /// its end; none where the frame has no such row.
    pub fn band(&self, y: usize) -> (range: Option<(usize, usize)>)
        requires
            self.wf(),
        ensures
            y < self.height ==> range == Some(
                (self.band_start(y as int) as usize, self.band_end(y as int) as usize),
            ),
            y < self.height ==> self.band_end(y as int) <= usize::MAX,
            y >= self.height ==> range is None,
    {
        if y >= self.height {
            return None;
        }
        proof {
            self.lemma_band_within(y as int);
            self.lemma_band_within(0);
            assert(0 <= y * (self.width * 3)) by (nonlinear_arith)
                requires
                    self.width > 0,
                    y >= 0,
            ;
            assert((y + 1) * (self.width * 3) == y * (self.width * 3) + self.width * 3)
                by (nonlinear_arith);
        }
        let row: usize = self.width * 3;
        let start: usize = y * row;
        Some((start, start + row))
    }

    /// A row of the frame lies within the frame and has the length of a row.
    pub proof fn lemma_band_within(&self, y: int)
        requires
            self.wf(),
            0 <= y < self.height,
        ensures
            0 <= self.band_start(y),
            self.band_end(y) == self.band_start(y) + self.row_bytes_spec(),
            self.band_end(y) <= self.len_spec(),
    {
        let w: int = self.width as int;
        let h: int = self.height as int;
        assert(0 <= y * (w * 3) && (y + 1) * (w * 3) == y * (w * 3) + w * 3 && (y + 1) * (w * 3)
            <= w * h * 3) by (nonlinear_arith)
            requires
                0 <= y < h,
                w > 0,
        ;
    }

    /// Two different rows share no byte: the upper one ends where the lower
    /// one begins, or before.
    pub proof fn lemma_bands_disjoint(&self, upper: int, lower: int)
        requires
            0 <= upper < lower,
        ensures
            self.band_end(upper) <= self.band_start(lower),
    {
        let w: int = self.width as int;
        assert((upper + 1) * (w * 3) <= lower * (w * 3)) by (nonlinear_arith)
            requires
                upper + 1 <= lower,
                w >= 0,
        ;
    }

    /// The frame is laid out row after row: the pixel at column `x` of row
    /// `y`, the pixel of number `y * width + x`, begins three bytes for each
    /// column into the row.
    pub proof fn lemma_row_major(&self, x: int, y: int)
        ensures
            (y * self.width + x) * 3 == self.band_start(y) + x * 3,
    {
        let w: int = self.width as int;
        assert((y * w + x) * 3 == y * (w * 3) + x * 3) by (nonlinear_arith);
    }

    /// Each byte of the frame lies in the row that its offset, divided by the
    /// length of a row, names.
    pub proof fn lemma_bands_cover(&self, offset: int)
        requires
            self.wf(),
            0 <= offset < self.len_spec(),
        ensures
            0 <= offset / self.row_bytes_spec() < self.height,
            self.band_start(offset / self.row_bytes_spec()) <= offset < self.band_end(
                offset / self.row_bytes_spec(),
            ),
    {
        let row: int = self.width * 3;
        let h: int = self.height as int;
        let y: int = offset / row;
        assert(self.width * self.height * 3 == (self.width * 3) * self.height)
            by (nonlinear_arith);
        assert(0 <= y < h && y * row <= offset < (y + 1) * row) by (nonlinear_arith)
            requires
                row > 0,
                0 <= offset < row * h,
                y == offset / row,
        ;
    }
}

/// `band` with the bytes of pixel `x` set to `pixel`.
pub open spec fn with_pixel(band: Seq<u8>, x: int, pixel: Rgb) -> Seq<u8> {
    band.update(x * 3, pixel.r).update(x * 3 + 1, pixel.g).update(x * 3 + 2, pixel.b)
}

/// Writes the three bytes of `pixel` into a row at column `x`.
pub fn write_pixel(band: &mut [u8], x: usize, pixel: Rgb)
    requires
        x * 3 + 3 <= old(band)@.len(),
    ensures
        final(band)@ == with_pixel(old(band)@, x as int, pixel),
{
    let p: usize = x * 3;
    band[p] = pixel.r;
    band[p + 1] = pixel.g;
    band[p + 2] = pixel.b;
}

/// The bytes of column `x` of `band` are those of `pixel`.
pub open spec fn holds_pixel(band: Seq<u8>, x: int, pixel: Rgb) -> bool {
    band[x * 3] == pixel.r && band[x * 3 + 1] == pixel.g && band[x * 3 + 2] == pixel.b
}

/// Writes a row of pixels into `band` from its start, and leaves what lies
/// behind them as it is.
pub fn write_band(band: &mut [u8], pixels: &Vec<Rgb>)
    requires
        pixels@.len() * 3 <= old(band)@.len(),
    ensures
        final(band)@.len() == old(band)@.len(),
        forall|x: int| 0 <= x < pixels@.len() ==> holds_pixel(final(band)@, x, #[trigger] pixels@[x]),
        forall|i: int|
            pixels@.len() * 3 <= i < old(band)@.len() ==> final(band)@[i] == old(band)@[i],
{
    let mut x: usize = 0;
    while x < pixels.len()
        invariant
            x <= pixels@.len(),
            band@.len() == old(band)@.len(),
            pixels@.len() * 3 <= band@.len(),
            forall|k: int| 0 <= k < x ==> holds_pixel(band@, k, #[trigger] pixels@[k]),
            forall|i: int| x * 3 <= i < band@.len() ==> band@[i] == old(band)@[i],
        decreases pixels@.len() - x,
    {
        write_pixel(band, x, pixels[x]);
        x += 1;
    }
}

} // verus!
