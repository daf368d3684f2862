//! Row-major 8-bit image planes: the pixel data that the detectors read.
use vstd::prelude::*;

verus! {

/// What a grayscale plane holds: its size and its pixels in row-major order.
pub struct GrayView {
    pub width: nat,
    pub height: nat,
    pub pixels: Seq<u8>,
}

impl GrayView {
    /// The pixel buffer has exactly one byte per pixel.
    pub open spec fn wf(self) -> bool {
        &&& self.pixels.len() == self.width * self.height
        &&& self.width <= u32::MAX
        &&& self.height <= u32::MAX
    }

    /// The value of the pixel in column `x` and row `y`.
    pub open spec fn px(self, x: int, y: int) -> u8 {
        self.pixels[y * self.width + x]
    }
}

/// Offsets of the pixels of a `width` by `height` raster stay inside it.
pub proof fn lemma_pixel_index(width: int, height: int, x: int, y: int)
    requires
        0 <= x < width,
        0 <= y < height,
    ensures
        0 <= y * width + x < width * height,
        y * width + x + 1 <= width * height,
        y * width <= y * width + x,
{
    assert(0 <= y * width + x < width * height) by (nonlinear_arith)
        requires
            0 <= x < width,
            0 <= y < height,
    ;
}

/// The product of two 32-bit sizes fits in 64 bits.
pub proof fn lemma_u32_product(a: u32, b: u32)
    ensures
        0 <= (a as int) * (b as int) <= u64::MAX,
{
    assert(0 <= (a as int) * (b as int) <= (u32::MAX as int) * (u32::MAX as int)) by (nonlinear_arith)
        requires
            0 <= a <= u32::MAX,
            0 <= b <= u32::MAX,
    ;
}

/// Two in-range positions share an offset only if they are the same position.
pub proof fn lemma_pixel_index_injective(width: int, x1: int, y1: int, x2: int, y2: int)
    requires
        0 <= x1 < width,
        0 <= x2 < width,
        0 <= y1,
        0 <= y2,
        y1 * width + x1 == y2 * width + x2,
    ensures
        x1 == x2,
        y1 == y2,
{
    if y1 < y2 {
        assert(y1 * width + width <= y2 * width) by (nonlinear_arith)
            requires
                y1 < y2,
                0 <= width,
        ;
    } else if y2 < y1 {
        assert(y2 * width + width <= y1 * width) by (nonlinear_arith)
            requires
                y2 < y1,
                0 <= width,
        ;
    }
}

/// An 8-bit grayscale image stored row by row.
pub struct GrayPlane {
    width: u32,
    height: u32,
    pixels: Vec<u8>,
}

impl View for GrayPlane {
    type V = GrayView;

    closed spec fn view(&self) -> GrayView {
        GrayView { width: self.width as nat, height: self.height as nat, pixels: self.pixels@ }
    }
}

impl GrayPlane {
    #[verifier::type_invariant]
    spec fn inv(self) -> bool {
        self.pixels@.len() == self.width * self.height
    }

    /// Builds a plane from a row-major pixel buffer; `None` when the buffer
    /// does not hold exactly `width * height` bytes.
    pub fn from_raw(width: u32, height: u32, pixels: Vec<u8>) -> (r: Option<GrayPlane>)
        ensures
            r is Some <==> pixels@.len() == width * height,
            r matches Some(p) ==> p@ == (GrayView {
                width: width as nat,
                height: height as nat,
                pixels: pixels@,
            }),
    {
        proof {
            lemma_u32_product(width, height);
        }
        let n: u64 = (width as u64) * (height as u64);
        if pixels.len() as u64 == n {
            Some(GrayPlane { width, height, pixels })
        } else {
            None
        }
    }

    /// The number of columns.
    pub fn width(&self) -> (r: u32)
        ensures
            r == self@.width,
            self@.wf(),
    {
        proof {
            use_type_invariant(self);
        }
        self.width
    }

    /// The number of rows.
    pub fn height(&self) -> (r: u32)
        ensures
            r == self@.height,
            self@.wf(),
    {
        proof {
            use_type_invariant(self);
        }
        self.height
    }

    /// The pixel buffer, row by row.
    pub fn as_raw(&self) -> (r: &Vec<u8>)
        ensures
            r@ == self@.pixels,
            self@.wf(),
    {
        proof {
            use_type_invariant(self);
        }
        &self.pixels
    }

    /// The pixel at column `x` and row `y` of an in-range position.
    pub fn pixel(&self, x: u32, y: u32) -> (r: u8)
        requires
            x < self@.width,
            y < self@.height,
        ensures
            r == self@.px(x as int, y as int),
    {
        proof {
            use_type_invariant(self);
            lemma_pixel_index(self.width as int, self.height as int, x as int, y as int);
        }
        let len: usize = self.pixels.len();
        let i: usize = (y as usize) * (self.width as usize) + (x as usize);
        assert(i < len);
        self.pixels[i]
    }

    /// The pixel at column `x` and row `y`, or `None` outside the image.
    pub fn get_pixel(&self, x: u32, y: u32) -> (r: Option<u8>)
        ensures
            r is Some <==> (x < self@.width && y < self@.height),
            r matches Some(v) ==> v == self@.px(x as int, y as int),
    {
        proof {
            use_type_invariant(self);
        }
        if x < self.width && y < self.height {
            Some(self.pixel(x, y))
        } else {
            None
        }
    }
}

/// What a color plane holds: its size and three bytes (red, green, blue)
/// per pixel in row-major order.
pub struct RgbView {
    pub width: nat,
    pub height: nat,
    pub data: Seq<u8>,
}

impl RgbView {
    /// The buffer has exactly three bytes per pixel.
    pub open spec fn wf(self) -> bool {
        &&& self.data.len() == 3 * (self.width * self.height)
        &&& self.width <= u32::MAX
        &&& self.height <= u32::MAX
    }

    /// The channel `c` (0 red, 1 green, 2 blue) of the pixel at (`x`, `y`).
    pub open spec fn channel(self, x: int, y: int, c: int) -> u8 {
        self.data[3 * (y * self.width + x) + c]
    }
}

/// An 8-bit RGB image stored row by row.
pub struct RgbPlane {
    width: u32,
    height: u32,
    data: Vec<u8>,
}

impl View for RgbPlane {
    type V = RgbView;

    closed spec fn view(&self) -> RgbView {
        RgbView { width: self.width as nat, height: self.height as nat, data: self.data@ }
    }
}

impl RgbPlane {
    #[verifier::type_invariant]
    spec fn inv(self) -> bool {
        self.data@.len() == 3 * (self.width * self.height)
    }

    /// Builds a plane from a row-major RGB buffer; `None` when the buffer
    /// does not hold exactly `3 * width * height` bytes.
    pub fn from_raw(width: u32, height: u32, data: Vec<u8>) -> (r: Option<RgbPlane>)
        ensures
            r is Some <==> data@.len() == 3 * (width * height),
            r matches Some(p) ==> p@ == (RgbView {
                width: width as nat,
                height: height as nat,
                data: data@,
            }),
    {
        proof {
            lemma_u32_product(width, height);
        }
        let n: u64 = (width as u64) * (height as u64);
        let len: usize = data.len();
        if n <= u64::MAX / 3 && len as u64 == 3 * n {
            Some(RgbPlane { width, height, data })
        } else {
            proof {
                if data@.len() == 3 * (width * height) {
                    assert(n == width * height);
                    assert(3 * n <= u64::MAX);
                }
            }
            None
        }
    }

    /// The number of columns.
    pub fn width(&self) -> (r: u32)
        ensures
            r == self@.width,
            self@.wf(),
    {
        proof {
            use_type_invariant(self);
        }
        self.width
    }

    /// The number of rows.
    pub fn height(&self) -> (r: u32)
        ensures
            r == self@.height,
            self@.wf(),
    {
        proof {
            use_type_invariant(self);
        }
        self.height
    }

    /// The color buffer, row by row.
    pub fn as_raw(&self) -> (r: &Vec<u8>)
        ensures
            r@ == self@.data,
            self@.wf(),
    {
        proof {
            use_type_invariant(self);
        }
        &self.data
    }

    /// The (red, green, blue) values at (`x`, `y`), or `None` outside the image.
    pub fn get_pixel(&self, x: u32, y: u32) -> (r: Option<(u8, u8, u8)>)
        ensures
            r is Some <==> (x < self@.width && y < self@.height),
            r matches Some(v) ==> v == (
                self@.channel(x as int, y as int, 0),
                self@.channel(x as int, y as int, 1),
                self@.channel(x as int, y as int, 2),
            ),
    {
        proof {
            use_type_invariant(self);
        }
        if x < self.width && y < self.height {
            let n: usize = self.data.len();
            proof {
                lemma_pixel_index(self.width as int, self.height as int, x as int, y as int);
                assert(y * self.width + x < self.width * self.height);
                assert(3 * (y * self.width + x) + 2 < self.data@.len());
            }
            let i: usize = 3 * ((y as usize) * (self.width as usize) + (x as usize));
            Some((self.data[i], self.data[i + 1], self.data[i + 2]))
        } else {
            None
        }
    }
}

} // verus!
