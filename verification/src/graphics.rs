//! The screen: a linear frame buffer of 32-bit pixels.

use vstd::prelude::*;

verus! {

/// A screen with its frame buffer. The pixels of a line lie one behind
/// the other, and the lines `pixels_per_scan_line` pixels apart.
pub struct Screen {
    fb_base: u64,
    horizontal_resolution: u32,
    vertical_resolution: u32,
    pixels_per_scan_line: u32,
    pixels: Vec<u32>,
}

impl View for Screen {
    type V = Seq<u32>;

    /// The pixels of the frame buffer, line after line.
    closed spec fn view(&self) -> Seq<u32> {
        self.pixels@
    }
}

impl Screen {
    /// The address of the frame buffer.
    pub closed spec fn base(&self) -> u64 {
        self.fb_base
    }

    /// The number of pixels of a line that are shown.
    pub closed spec fn width(&self) -> u32 {
        self.horizontal_resolution
    }

    /// The number of lines.
    pub closed spec fn height(&self) -> u32 {
        self.vertical_resolution
    }

    /// The number of pixels from one line to the next.
    pub closed spec fn stride(&self) -> u32 {
        self.pixels_per_scan_line
    }

    /// Whether the frame buffer has every pixel of every line.
    pub open spec fn wf(&self) -> bool {
        self@.len() == self.stride() * self.height()
    }

    /// Whether the geometry of `other` is that of this screen.
    pub open spec fn same_geometry(&self, other: &Screen) -> bool {
        &&& self.base() == other.base()
        &&& self.width() == other.width()
        &&& self.height() == other.height()
        &&& self.stride() == other.stride()
    }

    /// The place of the pixel at column `x` of line `y` in the frame
    /// buffer.
    pub open spec fn offset(&self, x: u32, y: u32) -> int {
        self.stride() * y + x
    }

    /// The pixel at column `x` of line `y`.
    pub open spec fn at(&self, x: u32, y: u32) -> u32 {
        self@[self.offset(x, y)]
    }

    /// Whether the frame buffer has a pixel at column `x` of line `y`.
    pub open spec fn has_pixel(&self, x: u32, y: u32) -> bool {
        x < self.stride() && y < self.height()
    }

    /// Creates a new screen with the given frame buffer, all black.
    pub fn new(
        fb_base: u64,
        horizontal_resolution: u32,
        vertical_resolution: u32,
        pixels_per_scan_line: u32,
    ) -> (screen: Self)
        requires
            pixels_per_scan_line * vertical_resolution <= usize::MAX,
        ensures
            screen.wf(),
            screen.base() == fb_base,
            screen.width() == horizontal_resolution,
            screen.height() == vertical_resolution,
            screen.stride() == pixels_per_scan_line,
            forall|i: int| 0 <= i < screen@.len() ==> screen@[i] == 0,
    {
        proof {
            lemma_product_fits(pixels_per_scan_line, vertical_resolution);
        }
        let count = pixels_per_scan_line as u64 * vertical_resolution as u64;
        Screen {
            fb_base,
            horizontal_resolution,
            vertical_resolution,
            pixels_per_scan_line,
            pixels: vec![0u32; count as usize],
        }
    }

    /// The address of the frame buffer.
    pub fn fb_base(&self) -> (addr: u64)
        ensures
            addr == self.base(),
    {
        self.fb_base
    }

    /// Returns the horizontal resolution of the screen.
    pub fn horizontal_resolution(&self) -> (pixels: u32)
        ensures
            pixels == self.width(),
    {
        self.horizontal_resolution
    }

    /// Returns the vertical resolution of the screen.
    pub fn vertical_resolution(&self) -> (lines: u32)
        ensures
            lines == self.height(),
    {
        self.vertical_resolution
    }

    /// The number of pixels from one line to the next.
    pub fn pixels_per_scan_line(&self) -> (pixels: u32)
        ensures
            pixels == self.stride(),
    {
        self.pixels_per_scan_line
    }

    /// Clears the screen (fills it with black pixels).
    pub fn clear(&mut self)
        requires
            old(self).wf(),
        ensures
            final(self).wf(),
            final(self).same_geometry(old(self)),
            forall|i: int| 0 <= i < final(self)@.len() ==> final(self)@[i] == 0,
    {
        let len = self.pixels.len();
        let mut i: usize = 0;
        while i < len
            invariant
                i <= len,
                len == self@.len(),
                self.wf(),
                self.same_geometry(old(self)),
                forall|k: int| 0 <= k < i ==> self@[k] == 0,
            decreases len - i,
        {
            self.pixels.set(i, 0);
            i += 1;
        }
    }

    /// Puts a single pixel on the screen at the specified coordinates.
    /// Coordinates outside the frame buffer are ignored.
    pub fn put_pixel(&mut self, x: u32, y: u32, pixel: u32)
        requires
            old(self).wf(),
        ensures
            final(self).wf(),
            final(self).same_geometry(old(self)),
            final(self)@ == if old(self).has_pixel(x, y) {
                old(self)@.update(old(self).offset(x, y), pixel)
            } else {
                old(self)@
            },
    {
        if x >= self.pixels_per_scan_line || y >= self.vertical_resolution {
            return ;
        }
        proof {
            lemma_offset_in(
                self.pixels_per_scan_line as int,
                self.vertical_resolution as int,
                x as int,
                y as int,
            );
            lemma_product_fits(self.pixels_per_scan_line, y);
        }
        let len = self.pixels.len();
        let offset = self.pixels_per_scan_line as u64 * y as u64 + x as u64;
        self.pixels.set(offset as usize, pixel);
    }

    /// The pixel at column `x` of line `y`, if the frame buffer has one
    /// there.
    pub fn pixel(&self, x: u32, y: u32) -> (value: Option<u32>)
        requires
            self.wf(),
        ensures
            value == if self.has_pixel(x, y) {
                Some(self@[self.offset(x, y)])
            } else {
                None
            },
    {
        if x >= self.pixels_per_scan_line || y >= self.vertical_resolution {
            return None;
        }
        proof {
            lemma_offset_in(
                self.pixels_per_scan_line as int,
                self.vertical_resolution as int,
                x as int,
                y as int,
            );
            lemma_product_fits(self.pixels_per_scan_line, y);
        }
        let len = self.pixels.len();
        let offset = self.pixels_per_scan_line as u64 * y as u64 + x as u64;
        Some(self.pixels[offset as usize])
    }
}

/// The product of two 32-bit numbers fits in 64 bits.
pub proof fn lemma_product_fits(a: u32, b: u32)
    by (nonlinear_arith)
    ensures
        0 <= a * b <= 0xffff_fffe_0000_0001,
{
}

/// A pixel of a line lies inside the frame buffer.
pub proof fn lemma_offset_in(stride: int, height: int, x: int, y: int)
    by (nonlinear_arith)
    requires
        0 <= x < stride,
        0 <= y < height,
    ensures
        0 <= stride * y + x < stride * height,
{
}

/// Two pixels lie at the same place of the frame buffer only if they are
/// the same pixel.
pub proof fn lemma_offset_unique(stride: int, x: int, y: int, other_x: int, other_y: int)
    by (nonlinear_arith)
    requires
        0 <= x < stride,
        0 <= other_x < stride,
        0 <= y,
        0 <= other_y,
        stride * y + x == stride * other_y + other_x,
    ensures
        x == other_x,
        y == other_y,
{
}

} // verus!
