//! Raw RGBA pixel frames and the exact-opacity drawing primitives of the
//! overlay.
use vstd::prelude::*;
use crate::color::Color;

verus! {

/// Raw RGBA pixel buffer, row-major from the top-left, 4 bytes per pixel.
#[derive(Clone, Debug)]
pub struct Frame {
    pub width: u32,
    pub height: u32,
    pub pixels: Vec<u8>,
}

/// Byte offset of channel `c` of pixel `(x, y)` in a frame of width `w`.
pub open spec fn byte_index(w: int, x: int, y: int, c: int) -> int {
    (y * w + x) * 4 + c
}

/// Two distinct (pixel, channel) positions of one frame occupy distinct bytes.
proof fn lemma_byte_index_injective(w: int, x1: int, y1: int, c1: int, x2: int, y2: int, c2: int)
    requires
        0 <= x1 < w,
        0 <= x2 < w,
        0 <= y1,
        0 <= y2,
        0 <= c1 < 4,
        0 <= c2 < 4,
        byte_index(w, x1, y1, c1) == byte_index(w, x2, y2, c2),
    ensures
        x1 == x2 && y1 == y2 && c1 == c2,
{
    assert(c1 == c2 && y1 * w + x1 == y2 * w + x2) by (nonlinear_arith)
        requires
            (y1 * w + x1) * 4 + c1 == (y2 * w + x2) * 4 + c2,
            0 <= c1 < 4,
            0 <= c2 < 4,
    ;
    assert(y1 == y2 && x1 == x2) by (nonlinear_arith)
        requires
            y1 * w + x1 == y2 * w + x2,
            0 <= x1 < w,
            0 <= x2 < w,
            0 <= y1,
            0 <= y2,
    ;
}

/// Every in-frame (pixel, channel) position addresses a byte of the buffer.
proof fn lemma_byte_index_bounds(w: int, h: int, x: int, y: int, c: int)
    requires
        0 <= x < w,
        0 <= y < h,
        0 <= c < 4,
    ensures
        0 <= byte_index(w, x, y, c) < w * h * 4,
        byte_index(w, x, y, 3) + 1 <= w * h * 4,
{
    assert(0 <= (y * w + x) * 4 + c < w * h * 4 && (y * w + x) * 4 + 3 + 1 <= w * h * 4)
        by (nonlinear_arith)
        requires
            0 <= x < w,
            0 <= y < h,
            0 <= c < 4,
    ;
}

impl Frame {
    /// The buffer holds exactly `width × height` pixels and its byte size
    /// fits the `u32` arithmetic used for pixel offsets.
    pub open spec fn wf(&self) -> bool {
        &&& self.pixels@.len() == self.width * self.height * 4
        &&& self.width * self.height * 4 <= u32::MAX
    }

    /// Byte of channel `c` of pixel `(x, y)`.
    pub open spec fn channel(&self, x: int, y: int, c: int) -> u8 {
        self.pixels@[byte_index(self.width as int, x, y, c)]
    }

    /// Create a blank (all-zero) frame.
    pub fn new(width: u32, height: u32) -> (f: Frame)
        requires
            width * height * 4 <= u32::MAX,
        ensures
            f.wf(),
            f.width == width,
            f.height == height,
            forall|i: int| 0 <= i < f.pixels@.len() ==> f.pixels@[i] == 0,
    {
        assert(width * height <= u32::MAX) by (nonlinear_arith)
            requires
                width * height * 4 <= u32::MAX,
        ;
        let n: u32 = width * height * 4;
        let mut pixels: Vec<u8> = Vec::new();
        let mut i: u32 = 0;
        while i < n
            invariant
                i <= n,
                pixels@.len() == i,
                forall|j: int| 0 <= j < i ==> pixels@[j] == 0,
            decreases n - i,
        {
            pixels.push(0u8);
            i = i + 1;
        }
        Frame { width, height, pixels }
    }

    /// RGBA components of the pixel at `(x, y)`; `(0, 0)` is the top-left.
    pub fn pixel(&self, x: u32, y: u32) -> (p: [u8; 4])
        requires
            x < self.width,
            y < self.height,
            self.wf(),
        ensures
            p@ == seq![
                self.channel(x as int, y as int, 0),
                self.channel(x as int, y as int, 1),
                self.channel(x as int, y as int, 2),
                self.channel(x as int, y as int, 3),
            ],
    {
        proof {
            lemma_byte_index_bounds(self.width as int, self.height as int, x as int, y as int, 0);
        }
        let idx = ((y * self.width + x) * 4) as usize;
        [self.pixels[idx], self.pixels[idx + 1], self.pixels[idx + 2], self.pixels[idx + 3]]
    }
}

/// CPU software renderer of scene frames (circles, rectangles, convex
/// polygons); the drawing itself is done with a 2D graphics library.
#[derive(Clone, Copy, Debug)]
pub struct TinySkiaRenderer;

// ── Exact-opacity compositing ────────────────────────────────────────────────

/// A byte after an opaque blit of `color`: the colour channels are replaced
/// and the alpha channel accumulates, saturating at 255.
pub open spec fn opaque_blit_byte(old: u8, color: Color, c: int) -> u8 {
    if c == 0 {
        color.r
    } else if c == 1 {
        color.g
    } else if c == 2 {
        color.b
    } else if old as int + color.a as int > 255 {
        255
    } else {
        (old + color.a) as u8
    }
}

/// Side of the square color chip drawn beside each leaderboard row.
pub const CHIP_SIZE: i32 = 8;

/// `true` when pixel `(px, py)` lies in the chip whose top-left is `(x, y)`.
pub open spec fn in_chip(x: int, y: int, px: int, py: int) -> bool {
    x <= px < x + CHIP_SIZE && y <= py < y + CHIP_SIZE
}

/// Blend `color` at full opacity into the pixel `(px, py)`.
fn blit_opaque(frame: &mut Frame, px: u32, py: u32, color: Color)
    requires
        old(frame).wf(),
        px < old(frame).width,
        py < old(frame).height,
    ensures
        final(frame).wf(),
        final(frame).width == old(frame).width,
        final(frame).height == old(frame).height,
        forall|x: int, y: int, c: int|
            0 <= x < old(frame).width && 0 <= y < old(frame).height && 0 <= c < 4 ==>
                #[trigger] final(frame).channel(x, y, c) == if x == px && y == py {
                    opaque_blit_byte(old(frame).channel(x, y, c), color, c)
                } else {
                    old(frame).channel(x, y, c)
                },
{
    let ghost w = frame.width as int;
    proof {
        lemma_byte_index_bounds(w, frame.height as int, px as int, py as int, 0);
    }
    let idx = ((py * frame.width + px) * 4) as usize;
    let a0 = frame.pixels[idx + 3];
    let alpha: u8 = if a0 as u16 + color.a as u16 > 255 {
        255
    } else {
        a0 + color.a
    };
    frame.pixels.set(idx, color.r);
    frame.pixels.set(idx + 1, color.g);
    frame.pixels.set(idx + 2, color.b);
    frame.pixels.set(idx + 3, alpha);
    assert forall|x: int, y: int, c: int|
        0 <= x < old(frame).width && 0 <= y < old(frame).height && 0 <= c < 4 implies
            #[trigger] frame.channel(x, y, c) == if x == px && y == py {
                opaque_blit_byte(old(frame).channel(x, y, c), color, c)
            } else {
                old(frame).channel(x, y, c)
            } by {
        lemma_byte_index_bounds(w, frame.height as int, x, y, c);
        if !(x == px && y == py) {
            if byte_index(w, x, y, c) >= idx && byte_index(w, x, y, c) < idx + 4 {
                let c2 = byte_index(w, x, y, c) - idx;
                lemma_byte_index_injective(w, x, y, c, px as int, py as int, c2);
            }
        }
    }
}

/// Draw an 8×8 opaque color chip with its top-left at `(x, y)`; the parts
/// outside the frame are clipped.
pub fn draw_color_chip(frame: &mut Frame, x: i32, y: i32, color: Color)
    requires
        old(frame).wf(),
        y + CHIP_SIZE - 1 <= i32::MAX,
        (y + CHIP_SIZE - 1 >= 0 && y < old(frame).height) ==> x + CHIP_SIZE - 1 <= i32::MAX,
    ensures
        final(frame).wf(),
        final(frame).width == old(frame).width,
        final(frame).height == old(frame).height,
        forall|px: int, py: int, c: int|
            0 <= px < old(frame).width && 0 <= py < old(frame).height && 0 <= c < 4 ==>
                #[trigger] final(frame).channel(px, py, c) == if in_chip(x as int, y as int, px, py) {
                    opaque_blit_byte(old(frame).channel(px, py, c), color, c)
                } else {
                    old(frame).channel(px, py, c)
                },
{
    let ghost start = *frame;
    let fw = frame.width as i64;
    let fh = frame.height as i64;
    let mut dy: i32 = 0;
    while dy < CHIP_SIZE
        invariant
            0 <= dy <= CHIP_SIZE,
            start.wf(),
            frame.wf(),
            frame.width == start.width,
            frame.height == start.height,
            fw == start.width,
            fh == start.height,
            y + CHIP_SIZE - 1 <= i32::MAX,
            (y + CHIP_SIZE - 1 >= 0 && y < start.height) ==> x + CHIP_SIZE - 1 <= i32::MAX,
            forall|px: int, py: int, c: int|
                0 <= px < start.width && 0 <= py < start.height && 0 <= c < 4 ==>
                    #[trigger] frame.channel(px, py, c) == if in_chip(x as int, y as int, px, py)
                        && py < y + dy {
                        opaque_blit_byte(start.channel(px, py, c), color, c)
                    } else {
                        start.channel(px, py, c)
                    },
        decreases CHIP_SIZE - dy,
    {
        let py = y + dy;
        if py >= 0 && (py as i64) < fh {
            let ghost row_start = *frame;
            let mut dx: i32 = 0;
            while dx < CHIP_SIZE
                invariant
                    0 <= dx <= CHIP_SIZE,
                    0 <= dy < CHIP_SIZE,
                    py == y + dy,
                    0 <= py < start.height,
                    start.wf(),
                    frame.wf(),
                    frame.width == start.width,
                    frame.height == start.height,
                    fw == start.width,
                    fh == start.height,
                    x + CHIP_SIZE - 1 <= i32::MAX,
                    forall|px: int, qy: int, c: int|
                        0 <= px < start.width && 0 <= qy < start.height && 0 <= c < 4 ==>
                            #[trigger] frame.channel(px, qy, c) == if in_chip(
                                x as int,
                                y as int,
                                px,
                                qy,
                            ) && (qy < py || (qy == py && px < x + dx)) {
                                opaque_blit_byte(start.channel(px, qy, c), color, c)
                            } else {
                                start.channel(px, qy, c)
                            },
                decreases CHIP_SIZE - dx,
            {
                let px = x + dx;
                if px >= 0 && (px as i64) < fw {
                    blit_opaque(frame, px as u32, py as u32, color);
                }
                dx = dx + 1;
            }
        }
        dy = dy + 1;
    }
}

} // verus!
