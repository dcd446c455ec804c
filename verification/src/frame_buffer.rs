//! Pixel buffers: the shadow copy of a window or of the screen, and the
//! rectangle copies the compositor is built from.
use vstd::prelude::*;
use crate::error::Code;
use crate::graphics::{intersection_of, rect_fits, PixelColor, Rectangle, Vector2D};

verus! {

/// How the hardware lays out the bytes of a pixel.
#[derive(Clone, Copy, Debug, PartialEq, Eq, Structural)]
pub enum PixelFormat {
    Rgb,
    Bgr,
}

/// What the firmware says about the screen.
#[derive(Clone, Copy, Debug)]
pub struct FrameBufferConfig {
    pub frame_buffer: usize,
    pub pixels_per_scan_line: usize,
    pub horizontal_resolution: usize,
    pub vertical_resolution: usize,
    pub pixel_format: PixelFormat,
}

/// Bits per pixel of a format (both formats use 32).
pub fn bits_per_pixel(format: &PixelFormat) -> (r: usize)
    ensures
        r == 32,
{
    match format {
        PixelFormat::Rgb => 32,
        PixelFormat::Bgr => 32,
    }
}

/// Bytes per pixel of a format (both formats use 4).
pub fn bytes_per_pixel(format: &PixelFormat) -> (r: usize)
    ensures
        r == 4,
{
    match format {
        PixelFormat::Rgb => 4,
        PixelFormat::Bgr => 4,
    }
}

/// Bytes per scan line of a frame buffer.
pub fn bytes_per_scan_line(config: &FrameBufferConfig) -> (r: usize)
    requires
        4 * config.pixels_per_scan_line <= usize::MAX,
    ensures
        r == 4 * config.pixels_per_scan_line,
{
    bytes_per_pixel(&config.pixel_format) * config.pixels_per_scan_line
}

/// Address of pixel `pos` in a frame buffer.
pub fn frame_addr_at(pos: Vector2D<i32>, config: &FrameBufferConfig) -> (r: usize)
    requires
        pos.x >= 0,
        pos.y >= 0,
        config.frame_buffer + 4 * (config.pixels_per_scan_line * pos.y + pos.x) <= usize::MAX,
    ensures
        r == config.frame_buffer + 4 * (config.pixels_per_scan_line * pos.y + pos.x),
{
    proof {
        assert(config.pixels_per_scan_line * pos.y <= config.pixels_per_scan_line * pos.y + pos.x);
    }
    config.frame_buffer + bytes_per_pixel(&config.pixel_format) * (config.pixels_per_scan_line * pos.y as usize
        + pos.x as usize)
}

/// Size of a frame buffer in pixels.
pub fn frame_buffer_size(config: &FrameBufferConfig) -> (r: Vector2D<i32>)
    requires
        config.horizontal_resolution <= i32::MAX,
        config.vertical_resolution <= i32::MAX,
    ensures
        r.x == config.horizontal_resolution,
        r.y == config.vertical_resolution,
{
    Vector2D::new(config.horizontal_resolution as i32, config.vertical_resolution as i32)
}

/// Bound on the coordinates and sizes the pixel buffers deal with (2^28),
/// far above any screen, which keeps every sum of two of them inside `i32`.
pub const SMALL: i32 = 0x1000_0000;

/// Whether both components of `v` are at most `SMALL` in size.
pub open spec fn small(v: Vector2D<i32>) -> bool {
    -SMALL <= v.x <= SMALL && -SMALL <= v.y <= SMALL
}

/// Position of pixel (`x`, `y`) in a row-major buffer `w` pixels wide.
pub open spec fn pixel_index(x: int, y: int, w: int) -> int {
    y * w + x
}

pub proof fn lemma_index_in_range(x: int, y: int, w: int, h: int)
    requires
        0 <= x < w,
        0 <= y < h,
    ensures
        0 <= pixel_index(x, y, w) < w * h,
        pixel_index(x, y, w) + (w - x) <= w * h,
{
    assert(y * w + x < w * h && y * w + w <= w * h && 0 <= y * w) by (nonlinear_arith)
        requires
            0 <= x < w,
            0 <= y < h,
    ;
}

/// Two pixel positions are at the same place in the buffer only when they
/// are the same position.
pub proof fn lemma_index_injective(x1: int, y1: int, x2: int, y2: int, w: int)
    requires
        0 <= x1 < w,
        0 <= x2 < w,
        0 <= y1,
        0 <= y2,
        pixel_index(x1, y1, w) == pixel_index(x2, y2, w),
    ensures
        x1 == x2 && y1 == y2,
{
    if y1 < y2 {
        assert(y1 * w + w <= y2 * w) by (nonlinear_arith)
            requires
                y1 < y2,
                w > 0,
        ;
    } else if y1 > y2 {
        assert(y2 * w + w <= y1 * w) by (nonlinear_arith)
            requires
                y2 < y1,
                w > 0,
        ;
    }
}

/// Whether `pos` lies inside a `w` by `h` area.
pub open spec fn inside(x: int, y: int, w: int, h: int) -> bool {
    0 <= x < w && 0 <= y < h
}

/// Whether the rectangle at `pos` of size `size` lies inside a `w` by `h`
/// area.
pub open spec fn rect_inside(pos: Vector2D<i32>, size: Vector2D<i32>, w: int, h: int) -> bool {
    0 <= pos.x && 0 <= pos.y && 0 <= size.x && 0 <= size.y && pos.x + size.x <= w && pos.y + size.y <= h
}

/// Whether (`x`, `y`) lies in the rectangle at `pos` of size `size`.
pub open spec fn in_rect(x: int, y: int, pos: Vector2D<i32>, size: Vector2D<i32>) -> bool {
    pos.x <= x < pos.x + size.x && pos.y <= y < pos.y + size.y
}

/// A buffer of pixels, row after row, with the pixel format of the screen
/// it stands for.
pub struct FrameBuffer {
    width: usize,
    height: usize,
    pixel_format: PixelFormat,
    frame_buffer: usize,
    pixels_per_scan_line: usize,
    pixels: Vec<PixelColor>,
}

impl FrameBuffer {
    pub closed spec fn wf(&self) -> bool {
        &&& self.pixels@.len() == self.width * self.height
        &&& self.width * self.height <= usize::MAX
        &&& self.width <= SMALL
        &&& self.height <= SMALL
    }

    /// A buffer's sides are at most `SMALL`.
    pub proof fn lemma_dims(&self)
        requires
            self.wf(),
        ensures
            0 <= self.width_spec() <= SMALL,
            0 <= self.height_spec() <= SMALL,
            self.width_spec() * self.height_spec() <= usize::MAX,
    {
    }

    /// Width in pixels.
    pub closed spec fn width_spec(&self) -> int {
        self.width as int
    }

    /// Height in pixels.
    pub closed spec fn height_spec(&self) -> int {
        self.height as int
    }

    /// The pixel format.
    /// Where the screen memory this buffer stands for starts: the address
    /// the configuration named, or 0 for a buffer of its own.
    pub closed spec fn address_spec(&self) -> usize {
        self.frame_buffer
    }

    /// Pixels from one row of the memory to the next.
    pub closed spec fn scan_line_spec(&self) -> usize {
        self.pixels_per_scan_line
    }

    pub closed spec fn format_spec(&self) -> PixelFormat {
        self.pixel_format
    }

    /// The color at (`x`, `y`).
    pub closed spec fn pixel(&self, x: int, y: int) -> PixelColor {
        self.pixels@[pixel_index(x, y, self.width as int)]
    }

    /// A black buffer of the size and format that `config` gives. Its
    /// pixels stand for the screen memory at `config.frame_buffer`, rows
    /// `config.pixels_per_scan_line` pixels apart; with no address (0) the
    /// buffer is a shadow buffer of its own, its rows as long as its width.
    pub fn new(config: FrameBufferConfig) -> (r: Result<Self, Code>)
        requires
            config.horizontal_resolution <= SMALL,
            config.vertical_resolution <= SMALL,
            config.horizontal_resolution * config.vertical_resolution <= usize::MAX,
        ensures
            r matches Ok(fb) && fb.wf() && fb.width_spec() == config.horizontal_resolution
                && fb.height_spec() == config.vertical_resolution && fb.format_spec() == config.pixel_format
                && fb.address_spec() == config.frame_buffer
                && fb.scan_line_spec() == if config.frame_buffer != 0 { config.pixels_per_scan_line } else { config.horizontal_resolution }
                && forall|x: int, y: int| inside(x, y, fb.width_spec(), fb.height_spec())
                    ==> #[trigger] fb.pixel(x, y) == (PixelColor { r: 0, g: 0, b: 0 }),
    {
        let w = config.horizontal_resolution;
        let h = config.vertical_resolution;
        let n = w * h;
        let mut pixels: Vec<PixelColor> = Vec::new();
        let mut i: usize = 0;
        while i < n
            invariant
                i <= n,
                pixels@.len() == i,
                forall|k: int| 0 <= k < i ==> #[trigger] pixels@[k] == (PixelColor { r: 0, g: 0, b: 0 }),
            decreases n - i,
        {
            pixels.push(PixelColor::new(0, 0, 0));
            i = i + 1;
        }
        let scan_line = if config.frame_buffer != 0 { config.pixels_per_scan_line } else { w };
        let fb = FrameBuffer {
            width: w,
            height: h,
            pixel_format: config.pixel_format,
            frame_buffer: config.frame_buffer,
            pixels_per_scan_line: scan_line,
            pixels,
        };
        assert forall|x: int, y: int| inside(x, y, fb.width_spec(), fb.height_spec()) implies #[trigger] fb.pixel(x, y)
            == (PixelColor { r: 0, g: 0, b: 0 }) by {
            lemma_index_in_range(x, y, w as int, h as int);
        }
        Ok(fb)
    }

    pub fn pixel_format(&self) -> (r: PixelFormat)
        ensures
            r == self.format_spec(),
    {
        self.pixel_format
    }

    /// Where the screen memory starts (0 for a buffer of its own).
    pub fn frame_buffer(&self) -> (r: usize)
        ensures
            r == self.address_spec(),
    {
        self.frame_buffer
    }

    /// Pixels from one row of the screen memory to the next.
    pub fn pixels_per_scan_line(&self) -> (r: usize)
        ensures
            r == self.scan_line_spec(),
    {
        self.pixels_per_scan_line
    }

    pub fn horizontal_resolution(&self) -> (r: usize)
        ensures
            r == self.width_spec(),
    {
        self.width
    }

    pub fn vertical_resolution(&self) -> (r: usize)
        ensures
            r == self.height_spec(),
    {
        self.height
    }

    /// Reads the color at `pos`.
    pub fn read(&self, pos: Vector2D<i32>) -> (r: PixelColor)
        requires
            self.wf(),
            inside(pos.x as int, pos.y as int, self.width_spec(), self.height_spec()),
        ensures
            r == self.pixel(pos.x as int, pos.y as int),
    {
        proof {
            lemma_index_in_range(pos.x as int, pos.y as int, self.width as int, self.height as int);
            assert((pos.y as usize) * self.width <= pixel_index(pos.x as int, pos.y as int, self.width as int));
        }
        let i = pos.y as usize * self.width + pos.x as usize;
        self.pixels[i]
    }

    /// Paints the pixel at `pos`.
    pub fn write(&mut self, pos: Vector2D<i32>, color: &PixelColor)
        requires
            old(self).wf(),
            inside(pos.x as int, pos.y as int, old(self).width_spec(), old(self).height_spec()),
        ensures
            final(self).wf(),
            final(self).width_spec() == old(self).width_spec(),
            final(self).height_spec() == old(self).height_spec(),
            final(self).format_spec() == old(self).format_spec(),
            final(self).address_spec() == old(self).address_spec(),
            final(self).scan_line_spec() == old(self).scan_line_spec(),
            forall|x: int, y: int| inside(x, y, old(self).width_spec(), old(self).height_spec()) ==> #[trigger] final(self).pixel(x, y)
                == if x == pos.x && y == pos.y { *color } else { old(self).pixel(x, y) },
    {
        proof {
            lemma_index_in_range(pos.x as int, pos.y as int, self.width as int, self.height as int);
            assert((pos.y as usize) * self.width <= pixel_index(pos.x as int, pos.y as int, self.width as int));
        }
        let i = pos.y as usize * self.width + pos.x as usize;
        self.pixels.set(i, *color);
        proof {
            assert forall|x: int, y: int| inside(x, y, old(self).width_spec(), old(self).height_spec()) implies #[trigger] self.pixel(x, y)
                == if x == pos.x && y == pos.y { *color } else { old(self).pixel(x, y) } by {
                lemma_index_in_range(x, y, self.width as int, self.height as int);
                if pixel_index(x, y, self.width as int) == i {
                    lemma_index_injective(x, y, pos.x as int, pos.y as int, self.width as int);
                }
            }
        }
    }

    /// Paints the rectangle at `pos` of size `size` with `c`.
    /// A rectangle with no width or height paints nothing.
    pub fn fill_rectangle(&mut self, pos: Vector2D<i32>, size: Vector2D<i32>, c: &PixelColor)
        requires
            old(self).wf(),
            size.x <= 0 || size.y <= 0 || rect_inside(pos, size, old(self).width_spec(), old(self).height_spec()),
        ensures
            final(self).wf(),
            final(self).width_spec() == old(self).width_spec(),
            final(self).height_spec() == old(self).height_spec(),
            final(self).format_spec() == old(self).format_spec(),
            final(self).address_spec() == old(self).address_spec(),
            final(self).scan_line_spec() == old(self).scan_line_spec(),
            forall|x: int, y: int| inside(x, y, old(self).width_spec(), old(self).height_spec()) ==> #[trigger] final(self).pixel(x, y)
                == if in_rect(x, y, pos, size) { *c } else { old(self).pixel(x, y) },
    {
        if size.x <= 0 || size.y <= 0 {
            return;
        }
        let mut dy: i32 = 0;
        while dy < size.y
            invariant
                self.wf(),
                self.width_spec() == old(self).width_spec(),
                self.height_spec() == old(self).height_spec(),
                self.format_spec() == old(self).format_spec(),
                self.address_spec() == old(self).address_spec(),
                self.scan_line_spec() == old(self).scan_line_spec(),
                rect_inside(pos, size, old(self).width_spec(), old(self).height_spec()),
                0 <= dy <= size.y,
                forall|x: int, y: int| inside(x, y, old(self).width_spec(), old(self).height_spec()) ==> #[trigger] self.pixel(x, y)
                    == if in_rect(x, y, pos, Vector2D { x: size.x, y: dy }) { *c } else { old(self).pixel(x, y) },
            decreases size.y - dy,
        {
            let mut dx: i32 = 0;
            while dx < size.x
                invariant
                    self.wf(),
                    self.width_spec() == old(self).width_spec(),
                    self.height_spec() == old(self).height_spec(),
                    self.format_spec() == old(self).format_spec(),
                    self.address_spec() == old(self).address_spec(),
                    self.scan_line_spec() == old(self).scan_line_spec(),
                    rect_inside(pos, size, old(self).width_spec(), old(self).height_spec()),
                    0 <= dy < size.y,
                    0 <= dx <= size.x,
                    forall|x: int, y: int| inside(x, y, old(self).width_spec(), old(self).height_spec()) ==> #[trigger] self.pixel(x, y)
                        == if in_rect(x, y, pos, Vector2D { x: size.x, y: dy })
                            || (y == pos.y + dy && pos.x <= x < pos.x + dx) { *c } else { old(self).pixel(x, y) },
                decreases size.x - dx,
            {
                self.write(Vector2D::new(pos.x + dx, pos.y + dy), c);
                dx = dx + 1;
            }
            dy = dy + 1;
        }
    }

    /// Draws the outline of the rectangle at `pos` of size `size` with `c`:
    /// its top and bottom rows and its left and right columns.
    pub fn draw_rectangle(&mut self, pos: Vector2D<i32>, size: Vector2D<i32>, c: &PixelColor)
        requires
            old(self).wf(),
            rect_inside(pos, size, old(self).width_spec(), old(self).height_spec()),
            size.x > 0,
            size.y > 0,
        ensures
            final(self).wf(),
            final(self).width_spec() == old(self).width_spec(),
            final(self).height_spec() == old(self).height_spec(),
            final(self).format_spec() == old(self).format_spec(),
            final(self).address_spec() == old(self).address_spec(),
            final(self).scan_line_spec() == old(self).scan_line_spec(),
            forall|x: int, y: int| inside(x, y, old(self).width_spec(), old(self).height_spec()) ==> #[trigger] final(self).pixel(x, y)
                == if in_rect(x, y, pos, size) && (x == pos.x || x == pos.x + size.x - 1 || y == pos.y || y == pos.y + size.y - 1) {
                    *c
                } else {
                    old(self).pixel(x, y)
                },
    {
        self.fill_rectangle(pos, Vector2D::new(size.x, 1), c);
        self.fill_rectangle(Vector2D::new(pos.x, pos.y + size.y - 1), Vector2D::new(size.x, 1), c);
        self.fill_rectangle(pos, Vector2D::new(1, size.y), c);
        self.fill_rectangle(Vector2D::new(pos.x + size.x - 1, pos.y), Vector2D::new(1, size.y), c);
    }

    /// The part of `dst` that `copy(dst_pos, src, src_area)` writes: the
    /// overlap of `dst`'s outline, `src`'s outline placed so that
    /// `src_area.pos` lands on `dst_pos`, and `src_area` placed at `dst_pos`.
    pub open spec fn copy_area(dst: &FrameBuffer, dst_pos: Vector2D<i32>, src: &FrameBuffer, src_area: Rectangle<i32>) -> Rectangle<i32> {
        let shift = Vector2D { x: (dst_pos.x - src_area.pos.x) as i32, y: (dst_pos.y - src_area.pos.y) as i32 };
        let dst_outline = Rectangle { pos: Vector2D { x: 0i32, y: 0i32 }, size: Vector2D { x: dst.width_spec() as i32, y: dst.height_spec() as i32 } };
        let src_outline = Rectangle { pos: shift, size: Vector2D { x: src.width_spec() as i32, y: src.height_spec() as i32 } };
        let shifted = Rectangle { pos: dst_pos, size: src_area.size };
        intersection_of(intersection_of(dst_outline, src_outline), shifted)
    }

    /// Copies the part `src_area` of `src` to `dst_pos` in this buffer, as
    /// far as both buffers reach; fails with `UnknownPixelFormat` when the
    /// two buffers' formats differ.
    pub fn copy(&mut self, dst_pos: Vector2D<i32>, src: &FrameBuffer, src_area: &Rectangle<i32>) -> (r: Result<(), Code>)
        requires
            old(self).wf(),
            src.wf(),
            small(dst_pos),
            small(src_area.pos),
            small(src_area.size),
            src_area.size.x >= 0,
            src_area.size.y >= 0,
        ensures
            final(self).wf(),
            final(self).width_spec() == old(self).width_spec(),
            final(self).height_spec() == old(self).height_spec(),
            final(self).format_spec() == old(self).format_spec(),
            final(self).address_spec() == old(self).address_spec(),
            final(self).scan_line_spec() == old(self).scan_line_spec(),
            r is Err <==> old(self).format_spec() != src.format_spec(),
            r matches Err(c) ==> c == Code::UnknownPixelFormat,
            ({
                let a = Self::copy_area(old(self), dst_pos, src, *src_area);
                forall|x: int, y: int| inside(x, y, old(self).width_spec(), old(self).height_spec()) ==> #[trigger] final(self).pixel(x, y)
                    == if r is Ok && in_rect(x, y, a.pos, a.size) {
                        src.pixel(x - (dst_pos.x - src_area.pos.x), y - (dst_pos.y - src_area.pos.y))
                    } else {
                        old(self).pixel(x, y)
                    }
            }),
    {
        if self.pixel_format != src.pixel_format {
            return Err(Code::UnknownPixelFormat);
        }
        let shift = dst_pos.minus(src_area.pos);
        let dst_outline = Rectangle { pos: Vector2D::new(0, 0), size: Vector2D::new(self.width as i32, self.height as i32) };
        let src_outline = Rectangle { pos: shift, size: Vector2D::new(src.width as i32, src.height as i32) };
        let shifted = Rectangle { pos: dst_pos, size: src_area.size };
        let both = dst_outline.intersection(&src_outline);
        proof { crate::graphics::lemma_intersection_within(dst_outline, src_outline); }
        let copy_area = both.intersection(&shifted);
        proof { crate::graphics::lemma_intersection_within(both, shifted); }
        let ghost a = Self::copy_area(old(self), dst_pos, src, *src_area);
        assert(copy_area == a);
        let mut dy: i32 = 0;
        while dy < copy_area.size.y
            invariant
                self.wf(),
                src.wf(),
                self.width_spec() == old(self).width_spec(),
                self.height_spec() == old(self).height_spec(),
                self.format_spec() == old(self).format_spec(),
                self.address_spec() == old(self).address_spec(),
                self.scan_line_spec() == old(self).scan_line_spec(),
                copy_area == a,
                small(dst_pos),
                small(src_area.pos),
                shift.x == dst_pos.x - src_area.pos.x,
                shift.y == dst_pos.y - src_area.pos.y,
                a.size.x >= 0 && a.size.y >= 0,
                a.size.x > 0 && a.size.y > 0 ==> rect_inside(a.pos, a.size, self.width_spec(), self.height_spec()),
                a.size.x > 0 && a.size.y > 0 ==> shift.x <= a.pos.x && a.pos.x + a.size.x <= shift.x + src.width_spec()
                    && shift.y <= a.pos.y && a.pos.y + a.size.y <= shift.y + src.height_spec(),
                0 <= dy <= a.size.y,
                forall|x: int, y: int| inside(x, y, old(self).width_spec(), old(self).height_spec()) ==> #[trigger] self.pixel(x, y)
                    == if in_rect(x, y, a.pos, Vector2D { x: a.size.x, y: dy }) {
                        src.pixel(x - shift.x, y - shift.y)
                    } else {
                        old(self).pixel(x, y)
                    },
            decreases a.size.y - dy,
        {
            let mut dx: i32 = 0;
            while dx < copy_area.size.x
                invariant
                    self.wf(),
                    src.wf(),
                    self.width_spec() == old(self).width_spec(),
                    self.height_spec() == old(self).height_spec(),
                    self.format_spec() == old(self).format_spec(),
                    self.address_spec() == old(self).address_spec(),
                    self.scan_line_spec() == old(self).scan_line_spec(),
                    copy_area == a,
                    shift.x == dst_pos.x - src_area.pos.x,
                    shift.y == dst_pos.y - src_area.pos.y,
                    small(dst_pos),
                    small(src_area.pos),
                    a.size.x >= 0,
                    0 <= dy < a.size.y,
                    a.size.x > 0 ==> rect_inside(a.pos, a.size, self.width_spec(), self.height_spec()),
                    a.size.x > 0 ==> shift.x <= a.pos.x && a.pos.x + a.size.x <= shift.x + src.width_spec()
                        && shift.y <= a.pos.y && a.pos.y + a.size.y <= shift.y + src.height_spec(),
                    0 <= dx <= a.size.x,
                    forall|x: int, y: int| inside(x, y, old(self).width_spec(), old(self).height_spec()) ==> #[trigger] self.pixel(x, y)
                        == if in_rect(x, y, a.pos, Vector2D { x: a.size.x, y: dy })
                            || (y == a.pos.y + dy && a.pos.x <= x < a.pos.x + dx) {
                            src.pixel(x - shift.x, y - shift.y)
                        } else {
                            old(self).pixel(x, y)
                        },
                decreases a.size.x - dx,
            {
                let d = Vector2D::new(copy_area.pos.x + dx, copy_area.pos.y + dy);
                let c = src.read(Vector2D::new(d.x - shift.x, d.y - shift.y));
                self.write(d, &c);
                dx = dx + 1;
            }
            dy = dy + 1;
        }
        Ok(())
    }

    /// Moves the rectangle `src` of this buffer to `dst_pos`, row by row in
    /// the order that reads every source row before it is overwritten.
    pub fn move_area(&mut self, dst_pos: Vector2D<i32>, src: &Rectangle<i32>)
        requires
            old(self).wf(),
            small(dst_pos),
            rect_inside(src.pos, src.size, old(self).width_spec(), old(self).height_spec()),
            rect_inside(dst_pos, src.size, old(self).width_spec(), old(self).height_spec()),
            dst_pos.y != src.pos.y,
        ensures
            final(self).wf(),
            final(self).width_spec() == old(self).width_spec(),
            final(self).height_spec() == old(self).height_spec(),
            final(self).format_spec() == old(self).format_spec(),
            final(self).address_spec() == old(self).address_spec(),
            final(self).scan_line_spec() == old(self).scan_line_spec(),
            forall|x: int, y: int| inside(x, y, old(self).width_spec(), old(self).height_spec()) ==> #[trigger] final(self).pixel(x, y)
                == if in_rect(x, y, dst_pos, src.size) {
                    old(self).pixel(x - dst_pos.x + src.pos.x, y - dst_pos.y + src.pos.y)
                } else {
                    old(self).pixel(x, y)
                },
    {
        let ghost w = self.width_spec();
        let ghost h = self.height_spec();
        let ghost sx = dst_pos.x - src.pos.x;
        let ghost sy = dst_pos.y - src.pos.y;
        let mut k: i32 = 0;
        while k < src.size.y
            invariant
                self.wf(),
                self.width_spec() == w && self.height_spec() == h,
                w == old(self).width_spec() && h == old(self).height_spec(),
                self.format_spec() == old(self).format_spec(),
                self.address_spec() == old(self).address_spec(),
                self.scan_line_spec() == old(self).scan_line_spec(),
                rect_inside(src.pos, src.size, w, h),
                rect_inside(dst_pos, src.size, w, h),
                dst_pos.y != src.pos.y,
                sx == dst_pos.x - src.pos.x,
                sy == dst_pos.y - src.pos.y,
                0 <= k <= src.size.y,
                forall|x: int, y: int| inside(x, y, w, h) ==> #[trigger] self.pixel(x, y)
                    == if dst_pos.x <= x < dst_pos.x + src.size.x && (if dst_pos.y < src.pos.y {
                        dst_pos.y <= y < dst_pos.y + k
                    } else {
                        dst_pos.y + src.size.y - k <= y < dst_pos.y + src.size.y
                    }) {
                        old(self).pixel(x - sx, y - sy)
                    } else {
                        old(self).pixel(x, y)
                    },
            decreases src.size.y - k,
        {
            let row: i32 = if dst_pos.y < src.pos.y { k } else { src.size.y - 1 - k };
            let mut dx: i32 = 0;
            while dx < src.size.x
                invariant
                    self.wf(),
                    self.width_spec() == w && self.height_spec() == h,
                    self.format_spec() == old(self).format_spec(),
                    self.address_spec() == old(self).address_spec(),
                    self.scan_line_spec() == old(self).scan_line_spec(),
                    rect_inside(src.pos, src.size, w, h),
                    rect_inside(dst_pos, src.size, w, h),
                    dst_pos.y != src.pos.y,
                    sx == dst_pos.x - src.pos.x,
                    sy == dst_pos.y - src.pos.y,
                    0 <= k < src.size.y,
                    row == if dst_pos.y < src.pos.y { k as int } else { src.size.y - 1 - k },
                    0 <= dx <= src.size.x,
                    forall|x: int, y: int| inside(x, y, w, h) ==> #[trigger] self.pixel(x, y)
                        == if dst_pos.x <= x < dst_pos.x + src.size.x && ((if dst_pos.y < src.pos.y {
                            dst_pos.y <= y < dst_pos.y + k
                        } else {
                            dst_pos.y + src.size.y - k <= y < dst_pos.y + src.size.y
                        }) || (y == dst_pos.y + row && x < dst_pos.x + dx)) {
                            old(self).pixel(x - sx, y - sy)
                        } else {
                            old(self).pixel(x, y)
                        },
                decreases src.size.x - dx,
            {
                let c = self.read(Vector2D::new(src.pos.x + dx, src.pos.y + row));
                self.write(Vector2D::new(dst_pos.x + dx, dst_pos.y + row), &c);
                dx = dx + 1;
            }
            k = k + 1;
        }
    }
}

} // verus!
