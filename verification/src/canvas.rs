//! The frame buffer: one packed `0x00RRGGBB` value per pixel, row by row.

use vstd::prelude::*;

verus! {

/// The packed value of a pixel from its three 8-bit channels.
pub open spec fn packed(r: u8, g: u8, b: u8) -> int {
    r * 65536 + g * 256 + b
}

/// Packs three 8-bit channels into one `0x00RRGGBB` value.
pub fn pack_rgb(r: u8, g: u8, b: u8) -> (rgb: u32)
    ensures
        rgb == packed(r, g, b),
        rgb <= 0x00ff_ffff,
{
    let r32: u32 = r as u32;
    let g32: u32 = g as u32;
    let b32: u32 = b as u32;
    assert(((r32 << 16) | (g32 << 8) | b32) == r32 * 65536 + g32 * 256 + b32) by (bit_vector)
        requires
            r32 < 256,
            g32 < 256,
            b32 < 256,
    ;
    (r32 << 16) | (g32 << 8) | b32
}

/// A rectangle of pixels. Pixel `(x, y)` is stored at `x + y * width`.
pub struct Canvas {
    pub width: usize,
    pub height: usize,
    pub buffer: Vec<u32>,
}

impl Canvas {
    /// The buffer holds exactly one value per pixel.
    pub open spec fn well_formed(&self) -> bool {
        self.buffer@.len() == self.width * self.height
    }

    /// Whether `(x, y)` names a pixel of this canvas.
    pub open spec fn contains(&self, x: int, y: int) -> bool {
        0 <= x < self.width && 0 <= y < self.height
    }

    /// Where pixel `(x, y)` is stored.
    pub open spec fn offset(&self, x: int, y: int) -> int {
        x + y * self.width
    }

    /// A canvas of the given size with every pixel black.
    pub fn new(width: usize, height: usize) -> (canvas: Canvas)
        requires
            width * height <= usize::MAX,
        ensures
            canvas.width == width,
            canvas.height == height,
            canvas.well_formed(),
            forall|i: int| 0 <= i < canvas.buffer@.len() ==> canvas.buffer@[i] == 0,
    {
        let total: usize = width * height;
        let mut buffer: Vec<u32> = Vec::new();
        let mut i: usize = 0;
        while i < total
            invariant
                i <= total,
                buffer@.len() == i,
                forall|j: int| 0 <= j < i ==> buffer@[j] == 0,
            decreases total - i,
        {
            buffer.push(0);
            i += 1;
        }
        Canvas { width, height, buffer }
    }

    /// Paints every pixel black.
    pub fn clear(&mut self)
        ensures
            final(self).width == old(self).width,
            final(self).height == old(self).height,
            final(self).buffer@.len() == old(self).buffer@.len(),
            forall|i: int| 0 <= i < final(self).buffer@.len() ==> final(self).buffer@[i] == 0,
    {
        let total: usize = self.buffer.len();
        let mut i: usize = 0;
        while i < total
            invariant
                i <= total,
                self.width == old(self).width,
                self.height == old(self).height,
                self.buffer@.len() == total,
                total == old(self).buffer@.len(),
                forall|j: int| 0 <= j < i ==> self.buffer@[j] == 0,
            decreases total - i,
        {
            self.buffer[i] = 0;
            i += 1;
        }
    }

    /// Stores `rgb` at pixel `(x, y)`; a position outside the canvas is
    /// ignored.
    pub fn set_color(&mut self, x: usize, y: usize, rgb: u32)
        requires
            old(self).well_formed(),
        ensures
            final(self).width == old(self).width,
            final(self).height == old(self).height,
            final(self).well_formed(),
            old(self).contains(x as int, y as int) ==> final(self).buffer@
                == old(self).buffer@.update(old(self).offset(x as int, y as int), rgb),
            !old(self).contains(x as int, y as int) ==> final(self).buffer@ == old(self).buffer@,
    {
        if x >= self.width || y >= self.height {
            return ;
        }
        let total: usize = self.buffer.len();
        proof {
            lemma_offset_in_range(x as int, y as int, self.width as int, self.height as int);
        }
        let at: usize = x + y * self.width;
        self.buffer[at] = rgb;
    }

    /// The value stored at pixel `(x, y)`; black for a position outside the
    /// canvas.
    pub fn color_at(&self, x: usize, y: usize) -> (rgb: &u32)
        requires
            self.well_formed(),
        ensures
            self.contains(x as int, y as int) ==> *rgb == self.buffer@[self.offset(
                x as int,
                y as int,
            )],
            !self.contains(x as int, y as int) ==> *rgb == 0,
    {
        if x >= self.width || y >= self.height {
            return &0;
        }
        let total: usize = self.buffer.len();
        proof {
            lemma_offset_in_range(x as int, y as int, self.width as int, self.height as int);
        }
        &self.buffer[x + y * self.width]
    }
}

/// A pixel inside the rectangle is stored inside the buffer, and two pixels
/// are never stored at the same place.
pub proof fn lemma_offset_in_range(x: int, y: int, width: int, height: int)
    requires
        0 <= x < width,
        0 <= y < height,
    ensures
        0 <= y * width <= x + y * width < width * height,
{
    assert(0 <= y * width <= x + y * width < width * height) by (nonlinear_arith)
        requires
            0 <= x < width,
            0 <= y < height,
    ;
}

/// Distinct pixels have distinct places in the buffer.
pub proof fn lemma_offset_injective(x1: int, y1: int, x2: int, y2: int, width: int)
    requires
        0 <= x1 < width,
        0 <= x2 < width,
        0 <= y1,
        0 <= y2,
        x1 + y1 * width == x2 + y2 * width,
    ensures
        x1 == x2,
        y1 == y2,
{
    assert(y1 == y2) by (nonlinear_arith)
        requires
            0 <= x1 < width,
            0 <= x2 < width,
            0 <= y1,
            0 <= y2,
            x1 + y1 * width == x2 + y2 * width,
    ;
}

} // verus!
