//! Windows: a pixel buffer with an optional transparent color, and the
//! decorations of a top-level window.
use vstd::prelude::*;
use crate::font::{glyph_bit, text_bit, write_ascii, write_string, BitmapFont};
use crate::frame_buffer::{in_rect, inside, rect_inside, small, FrameBuffer, FrameBufferConfig, PixelFormat, SMALL};
use crate::graphics::{intersection_of, PixelColor, Rectangle, Vector2D};
use vstd::string::StringSliceAdditionalSpecFns;

verus! {

/// Width of the close button.
pub const CLOSE_BUTTON_WIDTH: usize = 16;
/// Height of the close button.
pub const CLOSE_BUTTON_HEIGHT: usize = 14;

/// The close button, two bits per pixel from the left: 0 white, 1 light
/// gray, 2 dark gray, 3 black.
pub open spec fn close_button_row(y: int) -> u32 {
    if y == 0 {
        0xc000_0000u32
    } else if y == 1 || y == 2 || y == 9 || y == 10 || y == 11 {
        0xe555_5554u32
    } else if y == 3 || y == 8 {
        0xe5f5_5f54u32
    } else if y == 4 || y == 7 {
        0xe57d_7d54u32
    } else if y == 5 || y == 6 {
        0xe557_d554u32
    } else if y == 12 {
        0xeaaa_aaa8u32
    } else {
        0xffff_ffffu32
    }
}

fn close_button_row_exec(y: usize) -> (r: u32)
    requires
        y < 14,
    ensures
        r == close_button_row(y as int),
{
    if y == 0 {
        0xc000_0000u32
    } else if y == 1 || y == 2 || y == 9 || y == 10 || y == 11 {
        0xe555_5554u32
    } else if y == 3 || y == 8 {
        0xe5f5_5f54u32
    } else if y == 4 || y == 7 {
        0xe57d_7d54u32
    } else if y == 5 || y == 6 {
        0xe557_d554u32
    } else if y == 12 {
        0xeaaa_aaa8u32
    } else {
        0xffff_ffffu32
    }
}

/// The color code of close-button pixel (`x`, `y`).
pub open spec fn close_button_code(x: int, y: int) -> u32 {
    (close_button_row(y) >> ((2 * x) as u32)) & 3u32
}

/// The color a close-button code stands for.
pub open spec fn code_color(code: u32) -> PixelColor {
    if code == 3 {
        PixelColor { r: 0, g: 0, b: 0 }
    } else if code == 2 {
        PixelColor { r: 0x84, g: 0x84, b: 0x84 }
    } else if code == 1 {
        PixelColor { r: 0xc6, g: 0xc6, b: 0xc6 }
    } else {
        PixelColor { r: 0xff, g: 0xff, b: 0xff }
    }
}

fn code_color_exec(code: u32) -> (r: PixelColor)
    ensures
        r == code_color(code),
{
    if code == 3 {
        PixelColor::new(0, 0, 0)
    } else if code == 2 {
        PixelColor::new(0x84, 0x84, 0x84)
    } else if code == 1 {
        PixelColor::new(0xc6, 0xc6, 0xc6)
    } else {
        PixelColor::new(0xff, 0xff, 0xff)
    }
}

/// The close-button column that window column `x` shows when the
/// button starts at `w - 21`, running leftwards when `mirrored`.
pub open spec fn close_col(mirrored: bool, w: int, x: int) -> int {
    if mirrored { w - 21 - x } else { x - (w - 21) }
}

/// The color of pixel (`x`, `y`) of a `w` pixels wide window after the
/// close button is drawn on rows 5 to 18, `old` outside the button.
pub open spec fn button_color(mirrored: bool, w: int, x: int, y: int, old: PixelColor) -> PixelColor {
    if 0 <= close_col(mirrored, w, x) < 16 && 5 <= y < 19 {
        code_color(close_button_code(close_col(mirrored, w, x), y - 5))
    } else {
        old
    }
}


/// The color the frame of a `w` by `h` top-level window gives pixel
/// (`x`, `y`), or `old` where the frame leaves it: the ten rectangles
/// `draw_window` fills, the last one drawn taking precedence.
pub open spec fn frame_color(x: int, y: int, w: int, h: int, old: PixelColor) -> PixelColor {
    let c6 = PixelColor { r: 0xc6, g: 0xc6, b: 0xc6 };
    let ff = PixelColor { r: 0xff, g: 0xff, b: 0xff };
    let x84 = PixelColor { r: 0x84, g: 0x84, b: 0x84 };
    let black = PixelColor { r: 0, g: 0, b: 0 };
    let title = PixelColor { r: 0, g: 0, b: 0x84 };
    if 0 <= x < w && y == h - 1 {
        black
    } else if 1 <= x < w - 1 && y == h - 2 {
        x84
    } else if 3 <= x < w - 3 && 3 <= y < 21 {
        title
    } else if 2 <= x < w - 2 && 2 <= y < h - 2 {
        c6
    } else if x == w - 1 && 0 <= y < h {
        black
    } else if x == w - 2 && 1 <= y < h - 1 {
        x84
    } else if x == 1 && 1 <= y < h - 1 {
        ff
    } else if x == 0 && 0 <= y < h {
        c6
    } else if 1 <= x < w - 1 && y == 1 {
        ff
    } else if 0 <= x < w && y == 0 {
        c6
    } else {
        old
    }
}

/// A window's pixels.
pub struct WindowBase {
    width: u32,
    height: u32,
    transparent_color: Option<PixelColor>,
    shadow_buffer: FrameBuffer,
}

impl WindowBase {
    pub closed spec fn wf(&self) -> bool {
        &&& self.shadow_buffer.wf()
        &&& self.shadow_buffer.width_spec() == self.width
        &&& self.shadow_buffer.height_spec() == self.height
    }

    pub closed spec fn width_spec(&self) -> int {
        self.width as int
    }

    pub closed spec fn height_spec(&self) -> int {
        self.height as int
    }

    pub closed spec fn format_spec(&self) -> PixelFormat {
        self.shadow_buffer.format_spec()
    }

    pub closed spec fn transparent_spec(&self) -> Option<PixelColor> {
        self.transparent_color
    }

    /// The color at (`x`, `y`).
    pub closed spec fn pixel(&self, x: int, y: int) -> PixelColor {
        self.shadow_buffer.pixel(x, y)
    }

    /// The window's sides are at most `SMALL`.
    pub proof fn lemma_dims(&self)
        requires
            self.wf(),
        ensures
            0 <= self.width_spec() <= SMALL,
            0 <= self.height_spec() <= SMALL,
    {
        self.shadow_buffer.lemma_dims();
    }

    /// A black window of the given size, without a transparent color.
    pub fn new(width: u32, height: u32, shadow_format: PixelFormat) -> (r: Self)
        requires
            width <= SMALL,
            height <= SMALL,
            width * height <= usize::MAX,
        ensures
            r.wf(),
            r.width_spec() == width,
            r.height_spec() == height,
            r.format_spec() == shadow_format,
            r.transparent_spec() is None,
            forall|x: int, y: int| inside(x, y, width as int, height as int) ==> #[trigger] r.pixel(x, y) == (PixelColor { r: 0, g: 0, b: 0 }),
    {
        let config = FrameBufferConfig {
            frame_buffer: 0,
            pixels_per_scan_line: 0,
            horizontal_resolution: width as usize,
            vertical_resolution: height as usize,
            pixel_format: shadow_format,
        };
        let shadow = match FrameBuffer::new(config) {
            Ok(fb) => fb,
            Err(_) => vstd::pervasive::unreached(),
        };
        WindowBase { width, height, transparent_color: None, shadow_buffer: shadow }
    }

    pub fn width(&self) -> (r: u32)
        ensures
            r == self.width_spec(),
    {
        self.width
    }

    pub fn height(&self) -> (r: u32)
        ensures
            r == self.height_spec(),
    {
        self.height
    }

    /// The window's size.
    pub fn size(&self) -> (r: Vector2D<i32>)
        requires
            self.wf(),
        ensures
            r.x == self.width_spec(),
            r.y == self.height_spec(),
    {
        proof { self.lemma_dims(); }
        Vector2D::new(self.width as i32, self.height as i32)
    }

    /// The color that `draw_to` leaves out, if any.
    pub fn transparent_color(&self) -> (r: Option<PixelColor>)
        ensures
            r == self.transparent_spec(),
    {
        self.transparent_color
    }

    /// Sets or clears the color that `draw_to` leaves out.
    pub fn set_transparent_color(&mut self, c: Option<PixelColor>)
        ensures
            final(self).transparent_spec() == c,
            final(self).wf() == old(self).wf(),
            final(self).width_spec() == old(self).width_spec(),
            final(self).height_spec() == old(self).height_spec(),
            final(self).format_spec() == old(self).format_spec(),
            forall|x: int, y: int| #[trigger] final(self).pixel(x, y) == old(self).pixel(x, y),
    {
        self.transparent_color = c;
    }

    /// The color at `pos`.
    pub fn at(&self, pos: Vector2D<i32>) -> (r: PixelColor)
        requires
            self.wf(),
            inside(pos.x as int, pos.y as int, self.width_spec(), self.height_spec()),
        ensures
            r == self.pixel(pos.x as int, pos.y as int),
    {
        self.shadow_buffer.read(pos)
    }

    /// Paints the pixel at `pos`.
    pub fn write(&mut self, pos: Vector2D<i32>, color: &PixelColor)
        requires
            old(self).wf(),
            inside(pos.x as int, pos.y as int, old(self).width_spec(), old(self).height_spec()),
        ensures
            final(self).wf(),
            final(self).width_spec() == old(self).width_spec(),
            final(self).height_spec() == old(self).height_spec(),
            final(self).format_spec() == old(self).format_spec(),
            final(self).transparent_spec() == old(self).transparent_spec(),
            forall|x: int, y: int| inside(x, y, old(self).width_spec(), old(self).height_spec()) ==> #[trigger] final(self).pixel(x, y)
                == if x == pos.x && y == pos.y { *color } else { old(self).pixel(x, y) },
    {
        self.shadow_buffer.write(pos, color);
    }

    /// Paints the rectangle at `pos` of size `size` with `c`; an empty
    /// rectangle paints nothing.
    pub fn fill_rectangle(&mut self, pos: Vector2D<i32>, size: Vector2D<i32>, c: &PixelColor)
        requires
            old(self).wf(),
            size.x <= 0 || size.y <= 0 || rect_inside(pos, size, old(self).width_spec(), old(self).height_spec()),
        ensures
            final(self).wf(),
            final(self).width_spec() == old(self).width_spec(),
            final(self).height_spec() == old(self).height_spec(),
            final(self).format_spec() == old(self).format_spec(),
            final(self).transparent_spec() == old(self).transparent_spec(),
            forall|x: int, y: int| inside(x, y, old(self).width_spec(), old(self).height_spec()) ==> #[trigger] final(self).pixel(x, y)
                == if in_rect(x, y, pos, size) { *c } else { old(self).pixel(x, y) },
    {
        self.shadow_buffer.fill_rectangle(pos, size, c);
    }

    /// Draws character `c` of `font` with its top left corner at `pos`.
    pub fn write_ascii(&mut self, pos: Vector2D<i32>, c: u8, color: &PixelColor, font: &BitmapFont)
        requires
            old(self).wf(),
            font.wf(),
            rect_inside(pos, Vector2D { x: 8i32, y: 16i32 }, old(self).width_spec(), old(self).height_spec()),
        ensures
            final(self).wf(),
            final(self).width_spec() == old(self).width_spec(),
            final(self).height_spec() == old(self).height_spec(),
            final(self).format_spec() == old(self).format_spec(),
            final(self).transparent_spec() == old(self).transparent_spec(),
            forall|x: int, y: int| inside(x, y, old(self).width_spec(), old(self).height_spec()) ==> #[trigger] final(self).pixel(x, y)
                == if in_rect(x, y, pos, Vector2D { x: 8i32, y: 16i32 }) && glyph_bit(font.row_of(c, y - pos.y), x - pos.x) {
                    *color
                } else {
                    old(self).pixel(x, y)
                },
    {
        write_ascii(&mut self.shadow_buffer, pos, c, color, font);
    }

    /// Moves the rectangle `src` of the window to `dst_pos`.
    pub fn move_area(&mut self, dst_pos: Vector2D<i32>, src: &Rectangle<i32>)
        requires
            old(self).wf(),
            small(dst_pos),
            rect_inside(src.pos, src.size, old(self).width_spec(), old(self).height_spec()),
            rect_inside(dst_pos, src.size, old(self).width_spec(), old(self).height_spec()),
            dst_pos.y != src.pos.y,
        ensures
            final(self).wf(),
            final(self).width_spec() == old(self).width_spec(),
            final(self).height_spec() == old(self).height_spec(),
            final(self).format_spec() == old(self).format_spec(),
            final(self).transparent_spec() == old(self).transparent_spec(),
            forall|x: int, y: int| inside(x, y, old(self).width_spec(), old(self).height_spec()) ==> #[trigger] final(self).pixel(x, y)
                == if in_rect(x, y, dst_pos, src.size) {
                    old(self).pixel(x - dst_pos.x + src.pos.x, y - dst_pos.y + src.pos.y)
                } else {
                    old(self).pixel(x, y)
                },
    {
        self.shadow_buffer.move_area(dst_pos, src);
    }

    /// The color `draw_to(dst, pos, area)` leaves at (`x`, `y`) of a `dw` by
    /// `dh` buffer where the color was `under`: inside the part of `area`
    /// that the window, placed at `pos`, covers, the window's pixel there,
    /// unless it has the transparent color; elsewhere `under`.
    pub open spec fn drawn_pixel(&self, pos: Vector2D<i32>, area: Rectangle<i32>, dw: int, dh: int, under: PixelColor, x: int, y: int) -> PixelColor {
        let i = intersection_of(area, Rectangle { pos, size: Vector2D { x: self.width_spec() as i32, y: self.height_spec() as i32 } });
        if in_rect(x, y, i.pos, i.size) && (match self.transparent_spec() {
            None => true,
            Some(tc) => self.pixel(x - pos.x, y - pos.y) != tc,
        }) {
            self.pixel(x - pos.x, y - pos.y)
        } else {
            under
        }
    }

    /// Draws the part `area` of the screen that the window, placed at `pos`,
    /// covers into `dst`, as far as `dst` reaches. Without a transparent
    /// color the overlap is copied as it is; with one, pixels of that color
    /// are left out.
    #[verifier::rlimit(40)]
    pub fn draw_to(&self, dst: &mut FrameBuffer, pos: Vector2D<i32>, area: &Rectangle<i32>)
        requires
            self.wf(),
            old(dst).wf(),
            small(pos),
            small(area.pos),
            small(area.size),
            area.size.x >= 0,
            area.size.y >= 0,
            self.format_spec() == old(dst).format_spec(),
        ensures
            final(dst).wf(),
            final(dst).width_spec() == old(dst).width_spec(),
            final(dst).height_spec() == old(dst).height_spec(),
            final(dst).format_spec() == old(dst).format_spec(),
            forall|x: int, y: int| inside(x, y, old(dst).width_spec(), old(dst).height_spec()) ==> #[trigger] final(dst).pixel(x, y)
                == self.drawn_pixel(pos, *area, old(dst).width_spec(), old(dst).height_spec(), old(dst).pixel(x, y), x, y),
    {
        proof {
            self.lemma_dims();
            dst.lemma_dims();
        }
        let window_area = Rectangle { pos, size: self.size() };
        let intersection = area.intersection(&window_area);
        proof { crate::graphics::lemma_intersection_within(*area, window_area); }
        match self.transparent_color {
            None => {
                let src_area = Rectangle { pos: intersection.pos.minus(pos), size: intersection.size };
                let r = dst.copy(intersection.pos, &self.shadow_buffer, &src_area);
                proof {
                    let a = FrameBuffer::copy_area(old(dst), intersection.pos, &self.shadow_buffer, src_area);
                    crate::graphics::lemma_intersection_within(
                        Rectangle { pos: Vector2D { x: 0i32, y: 0i32 }, size: Vector2D { x: old(dst).width_spec() as i32, y: old(dst).height_spec() as i32 } },
                        Rectangle { pos, size: Vector2D { x: self.width_spec() as i32, y: self.height_spec() as i32 } });
                    let dst_outline = Rectangle { pos: Vector2D { x: 0i32, y: 0i32 }, size: Vector2D { x: old(dst).width_spec() as i32, y: old(dst).height_spec() as i32 } };
                    let win = Rectangle { pos, size: Vector2D { x: self.width_spec() as i32, y: self.height_spec() as i32 } };
                    crate::graphics::lemma_intersection_within(dst_outline, win);
                    let d1 = intersection_of(dst_outline, win);
                    assert forall|x: int, y: int| inside(x, y, old(dst).width_spec(), old(dst).height_spec()) implies
                        in_rect(x, y, a.pos, a.size) == in_rect(x, y, intersection.pos, intersection.size) by {
                        crate::graphics::lemma_in_intersection(*area, win, x, y);
                        crate::graphics::lemma_in_intersection(dst_outline, win, x, y);
                        crate::graphics::lemma_in_intersection(d1, Rectangle { pos: intersection.pos, size: intersection.size }, x, y);
                    }
                }
            },
            Some(tc) => {
                let ghost win = Rectangle { pos, size: Vector2D { x: self.width_spec() as i32, y: self.height_spec() as i32 } };
                let dh = dst.vertical_resolution() as i32;
                let dw = dst.horizontal_resolution() as i32;
                let y0: i32 = if intersection.pos.y >= 0 { intersection.pos.y } else { 0 };
                let y1: i32 = if intersection.pos.y + intersection.size.y <= dh { intersection.pos.y + intersection.size.y } else { dh };
                let x0: i32 = if intersection.pos.x >= 0 { intersection.pos.x } else { 0 };
                let x1: i32 = if intersection.pos.x + intersection.size.x <= dw { intersection.pos.x + intersection.size.x } else { dw };
                let mut y = y0;
                while y < y1
                    invariant
                        self.wf(),
                        dst.wf(),
                        dst.width_spec() == old(dst).width_spec(),
                        dst.height_spec() == old(dst).height_spec(),
                        dst.format_spec() == old(dst).format_spec(),
                        self.transparent_spec() == Some(tc),
                        small(pos),
                        dw == dst.width_spec() && dh == dst.height_spec(),
                        dst.width_spec() <= SMALL && dst.height_spec() <= SMALL,
                        self.width_spec() <= SMALL && self.height_spec() <= SMALL,
                        win == (Rectangle { pos, size: Vector2D { x: self.width_spec() as i32, y: self.height_spec() as i32 } }),
                        intersection == intersection_of(*area, win),
                        intersection.size.x >= 0 && intersection.size.y >= 0,
                        intersection.size.x > 0 && intersection.size.y > 0 ==> pos.x <= intersection.pos.x && pos.y <= intersection.pos.y
                            && intersection.pos.x + intersection.size.x <= pos.x + self.width_spec()
                            && intersection.pos.y + intersection.size.y <= pos.y + self.height_spec(),
                        y0 == (if intersection.pos.y >= 0 { intersection.pos.y as int } else { 0 }),
                        y1 == (if intersection.pos.y + intersection.size.y <= dh { intersection.pos.y + intersection.size.y } else { dh as int }),
                        x0 == (if intersection.pos.x >= 0 { intersection.pos.x as int } else { 0 }),
                        x1 == (if intersection.pos.x + intersection.size.x <= dw { intersection.pos.x + intersection.size.x } else { dw as int }),
                        y0 <= y,
                        y0 <= y1 ==> y <= y1,
                        forall|px: int, py: int| inside(px, py, old(dst).width_spec(), old(dst).height_spec()) ==> #[trigger] dst.pixel(px, py)
                            == if in_rect(px, py, intersection.pos, intersection.size) && py < y
                                && self.pixel(px - pos.x, py - pos.y) != tc {
                                self.pixel(px - pos.x, py - pos.y)
                            } else {
                                old(dst).pixel(px, py)
                            },
                    decreases y1 - y,
                {
                    let mut x = x0;
                    while x < x1
                        invariant
                            self.wf(),
                            dst.wf(),
                            dst.width_spec() == old(dst).width_spec(),
                            dst.height_spec() == old(dst).height_spec(),
                            dst.format_spec() == old(dst).format_spec(),
                            self.transparent_spec() == Some(tc),
                            small(pos),
                            dw == dst.width_spec() && dh == dst.height_spec(),
                            dst.width_spec() <= SMALL && dst.height_spec() <= SMALL,
                            self.width_spec() <= SMALL && self.height_spec() <= SMALL,
                            intersection.size.x >= 0 && intersection.size.y >= 0,
                            intersection.size.x > 0 && intersection.size.y > 0 ==> pos.x <= intersection.pos.x && pos.y <= intersection.pos.y
                                && intersection.pos.x + intersection.size.x <= pos.x + self.width_spec()
                                && intersection.pos.y + intersection.size.y <= pos.y + self.height_spec(),
                            y0 == (if intersection.pos.y >= 0 { intersection.pos.y as int } else { 0 }),
                            y1 == (if intersection.pos.y + intersection.size.y <= dh { intersection.pos.y + intersection.size.y } else { dh as int }),
                            x0 == (if intersection.pos.x >= 0 { intersection.pos.x as int } else { 0 }),
                            x1 == (if intersection.pos.x + intersection.size.x <= dw { intersection.pos.x + intersection.size.x } else { dw as int }),
                            y0 <= y < y1,
                            x0 <= x,
                            x0 <= x1 ==> x <= x1,
                            forall|px: int, py: int| inside(px, py, old(dst).width_spec(), old(dst).height_spec()) ==> #[trigger] dst.pixel(px, py)
                                == if in_rect(px, py, intersection.pos, intersection.size) && (py < y || py == y && px < x)
                                    && self.pixel(px - pos.x, py - pos.y) != tc {
                                    self.pixel(px - pos.x, py - pos.y)
                                } else {
                                    old(dst).pixel(px, py)
                                },
                        decreases x1 - x,
                    {
                        let rel = Vector2D::new(x - pos.x, y - pos.y);
                        let c = self.at(rel);
                        if c != tc {
                            dst.write(Vector2D::new(x, y), &c);
                        }
                        x = x + 1;
                    }
                    y = y + 1;
                }
            },
        }
    }

    /// Draws the close button on rows 5 to 18: column `close_col(..)` of
    /// the button at window column `x`, the button's first column at
    /// `width - 21`, running leftwards when `mirrored` and rightwards
    /// otherwise.
    fn draw_close_button(&mut self, mirrored: bool)
        requires
            old(self).wf(),
            old(self).width_spec() >= 36,
            old(self).height_spec() >= 19,
        ensures
            final(self).wf(),
            final(self).width_spec() == old(self).width_spec(),
            final(self).height_spec() == old(self).height_spec(),
            final(self).format_spec() == old(self).format_spec(),
            final(self).transparent_spec() == old(self).transparent_spec(),
            forall|x: int, y: int| inside(x, y, old(self).width_spec(), old(self).height_spec()) ==> #[trigger] final(self).pixel(x, y)
                == button_color(mirrored, old(self).width_spec(), x, y, old(self).pixel(x, y)),
    {
        proof { self.lemma_dims(); }
        let w = self.width as i32;
        let mut by: usize = 0;
        while by < CLOSE_BUTTON_HEIGHT
            invariant
                self.wf(),
                self.width_spec() == old(self).width_spec(),
                self.height_spec() == old(self).height_spec(),
                self.format_spec() == old(self).format_spec(),
                self.transparent_spec() == old(self).transparent_spec(),
                w == self.width_spec(),
                36 <= w <= SMALL,
                self.height_spec() >= 19,
                by <= 14,
                forall|x: int, y: int| inside(x, y, old(self).width_spec(), old(self).height_spec()) ==> #[trigger] self.pixel(x, y)
                    == if 0 <= close_col(mirrored, w as int, x) < 16 && 5 <= y < 5 + by {
                        code_color(close_button_code(close_col(mirrored, w as int, x), y - 5))
                    } else {
                        old(self).pixel(x, y)
                    },
            decreases 14 - by,
        {
            let row = close_button_row_exec(by);
            let mut bx: usize = 0;
            while bx < CLOSE_BUTTON_WIDTH
                invariant
                    self.wf(),
                    self.width_spec() == old(self).width_spec(),
                    self.height_spec() == old(self).height_spec(),
                    self.format_spec() == old(self).format_spec(),
                    self.transparent_spec() == old(self).transparent_spec(),
                    w == self.width_spec(),
                    36 <= w <= SMALL,
                    self.height_spec() >= 19,
                    by < 14,
                    row == close_button_row(by as int),
                    bx <= 16,
                    forall|x: int, y: int| inside(x, y, old(self).width_spec(), old(self).height_spec()) ==> #[trigger] self.pixel(x, y)
                        == if (0 <= close_col(mirrored, w as int, x) < 16 && 5 <= y < 5 + by)
                            || (y == 5 + by && 0 <= close_col(mirrored, w as int, x) < bx) {
                            code_color(close_button_code(close_col(mirrored, w as int, x), y - 5))
                        } else {
                            old(self).pixel(x, y)
                        },
                decreases 16 - bx,
            {
                let code = (row >> ((2 * bx) as u32)) & 3;
                let c = code_color_exec(code);
                let x: i32 = if mirrored { w - 21 - bx as i32 } else { w - 21 + bx as i32 };
                proof {
                    assert(close_col(mirrored, w as int, x as int) == bx as int);
                }
                self.write(Vector2D::new(x, 5 + by as i32), &c);
                bx = bx + 1;
            }
            by = by + 1;
        }
    }

    /// Draws the frame and title bar of a top-level window, its title from
    /// (24, 4), and the close button (drawn flipped left to right) near the
    /// top right corner.
    pub fn draw_window(&mut self, title: &[u8], font: &BitmapFont)
        requires
            old(self).wf(),
            font.wf(),
            old(self).width_spec() >= 36,
            old(self).height_spec() >= 21,
            24 + 8 * title@.len() <= old(self).width_spec(),
        ensures
            final(self).wf(),
            final(self).width_spec() == old(self).width_spec(),
            final(self).height_spec() == old(self).height_spec(),
            final(self).format_spec() == old(self).format_spec(),
            final(self).transparent_spec() == old(self).transparent_spec(),
            forall|x: int, y: int| inside(x, y, old(self).width_spec(), old(self).height_spec()) ==> #[trigger] final(self).pixel(x, y)
                == button_color(true, old(self).width_spec(), x, y,
                    if text_bit(font, title@, x - 24, y - 4) {
                        PixelColor { r: 0xff, g: 0xff, b: 0xff }
                    } else {
                        frame_color(x, y, old(self).width_spec(), old(self).height_spec(), old(self).pixel(x, y))
                    }),
    {
        proof { self.lemma_dims(); }
        let w = self.width as i32;
        let h = self.height as i32;
        let light = PixelColor::new(0xc6, 0xc6, 0xc6);
        let white = PixelColor::new(0xff, 0xff, 0xff);
        let dark = PixelColor::new(0x84, 0x84, 0x84);
        let black = PixelColor::new(0, 0, 0);
        let title_bar = PixelColor::new(0, 0, 0x84);
        let ghost s0 = *self;
        self.fill_rectangle(Vector2D::new(0, 0), Vector2D::new(w, 1), &light);
        let ghost s1 = *self;
        self.fill_rectangle(Vector2D::new(1, 1), Vector2D::new(w - 2, 1), &white);
        let ghost s2 = *self;
        self.fill_rectangle(Vector2D::new(0, 0), Vector2D::new(1, h), &light);
        let ghost s3 = *self;
        self.fill_rectangle(Vector2D::new(1, 1), Vector2D::new(1, h - 2), &white);
        let ghost s4 = *self;
        self.fill_rectangle(Vector2D::new(w - 2, 1), Vector2D::new(1, h - 2), &dark);
        let ghost s5 = *self;
        self.fill_rectangle(Vector2D::new(w - 1, 0), Vector2D::new(1, h), &black);
        let ghost s6 = *self;
        self.fill_rectangle(Vector2D::new(2, 2), Vector2D::new(w - 4, h - 4), &light);
        let ghost s7 = *self;
        self.fill_rectangle(Vector2D::new(3, 3), Vector2D::new(w - 6, 18), &title_bar);
        let ghost s8 = *self;
        self.fill_rectangle(Vector2D::new(1, h - 2), Vector2D::new(w - 2, 1), &dark);
        let ghost s9 = *self;
        self.fill_rectangle(Vector2D::new(0, h - 1), Vector2D::new(w, 1), &black);
        proof {
            assert forall|x: int, y: int| inside(x, y, s0.width_spec(), s0.height_spec()) implies #[trigger] self.pixel(x, y)
                == frame_color(x, y, s0.width_spec(), s0.height_spec(), s0.pixel(x, y)) by {
                let seen = (s1.pixel(x, y), s2.pixel(x, y), s3.pixel(x, y), s4.pixel(x, y), s5.pixel(x, y), s6.pixel(x, y), s7.pixel(x, y), s8.pixel(x, y), s9.pixel(x, y));
            }
        }
        let ghost s10 = *self;
        write_string(&mut self.shadow_buffer, Vector2D::new(24, 4), title, &white, font);
        let ghost s11 = *self;
        self.draw_close_button(true);
        proof {
            assert forall|x: int, y: int| inside(x, y, s0.width_spec(), s0.height_spec()) implies #[trigger] self.pixel(x, y)
                == button_color(true, s0.width_spec(), x, y,
                    if text_bit(font, title@, x - 24, y - 4) { white } else {
                        frame_color(x, y, s0.width_spec(), s0.height_spec(), s0.pixel(x, y))
                    }) by {
                assert(s10.pixel(x, y) == frame_color(x, y, s0.width_spec(), s0.height_spec(), s0.pixel(x, y)));
                let seen = (s11.pixel(x, y),);
            }
        }
    }

    /// Draws a sunken text box: a white inside with dark top and left
    /// borders and light bottom and right borders.
    pub fn draw_text_box(&mut self, pos: Vector2D<i32>, size: Vector2D<i32>)
        requires
            old(self).wf(),
            0 <= pos.x && 0 <= pos.y && 0 <= size.x && 0 <= size.y,
            pos.x + size.x + 1 <= old(self).width_spec(),
            pos.y + size.y + 1 <= old(self).height_spec(),
        ensures
            final(self).wf(),
            final(self).width_spec() == old(self).width_spec(),
            final(self).height_spec() == old(self).height_spec(),
            final(self).format_spec() == old(self).format_spec(),
            final(self).transparent_spec() == old(self).transparent_spec(),
            forall|x: int, y: int| inside(x, y, old(self).width_spec(), old(self).height_spec()) ==> #[trigger] final(self).pixel(x, y)
                == if (x == pos.x + size.x && pos.y <= y < pos.y + size.y) || (y == pos.y + size.y && pos.x <= x < pos.x + size.x) {
                    PixelColor { r: 0xc6, g: 0xc6, b: 0xc6 }
                } else if (x == pos.x && pos.y <= y < pos.y + size.y) || (y == pos.y && pos.x <= x < pos.x + size.x) {
                    PixelColor { r: 0x84, g: 0x84, b: 0x84 }
                } else if pos.x + 1 <= x < pos.x + size.x - 1 && pos.y + 1 <= y < pos.y + size.y - 1 {
                    PixelColor { r: 0xff, g: 0xff, b: 0xff }
                } else {
                    old(self).pixel(x, y)
                },
    {
        proof { self.lemma_dims(); }
        self.fill_rectangle(Vector2D::new(pos.x + 1, pos.y + 1), Vector2D::new(size.x - 2, size.y - 2), &PixelColor::to_color(0xffffff));
        self.fill_rectangle(pos, Vector2D::new(size.x, 1), &PixelColor::to_color(0x848484));
        self.fill_rectangle(pos, Vector2D::new(1, size.y), &PixelColor::to_color(0x848484));
        self.fill_rectangle(Vector2D::new(pos.x, pos.y + size.y), Vector2D::new(size.x, 1), &PixelColor::to_color(0xc6c6c6));
        self.fill_rectangle(Vector2D::new(pos.x + size.x, pos.y), Vector2D::new(1, size.y), &PixelColor::to_color(0xc6c6c6));
    }

    pub fn activate(&mut self)
        ensures
            *final(self) == *old(self),
    {
    }

    pub fn deactivate(&mut self)
        ensures
            *final(self) == *old(self),
    {
    }
}


/// `nw` is the window `ow` with its title bar drawn, dark blue when
/// `active` and gray otherwise, with the title and the close button; a bare
/// window stays as it is.
pub open spec fn title_drawn(ow: Window, nw: Window, active: bool, font: BitmapFont) -> bool {
    &&& ow is Base ==> nw == ow
    &&& ow matches Window::Toplevel { base: ob, title: ot } ==> (nw matches Window::Toplevel { base: nb, title: nt } && {
        &&& nt@ == ot@
        &&& nb.width_spec() == ob.width_spec()
        &&& nb.height_spec() == ob.height_spec()
        &&& nb.format_spec() == ob.format_spec()
        &&& nb.transparent_spec() == ob.transparent_spec()
        &&& forall|x: int, y: int| inside(x, y, ob.width_spec(), ob.height_spec()) ==> #[trigger] nb.pixel(x, y)
            == button_color(false, ob.width_spec(), x, y,
                if text_bit(&font, ot@, x - 24, y - 4) {
                    PixelColor { r: 0xff, g: 0xff, b: 0xff }
                } else if in_rect(x, y, Vector2D { x: 3i32, y: 3i32 }, Vector2D { x: (ob.width_spec() - 6) as i32, y: 18i32 }) {
                    if active { PixelColor { r: 0, g: 0, b: 0x84 } } else { PixelColor { r: 0x84, g: 0x84, b: 0x84 } }
                } else {
                    ob.pixel(x, y)
                })
    })
}

/// A window: bare pixels, or a top-level window with a frame, a title bar
/// showing `title` and a close button.
pub enum Window {
    Base(WindowBase),
    Toplevel { base: WindowBase, title: Vec<u8> },
}

/// The margin between a top-level window's outline and its drawing area at
/// the top left: 4 pixels across and 24 down.
pub fn top_left_margin() -> (r: Vector2D<i32>)
    ensures
        r == (Vector2D { x: 4i32, y: 24i32 }),
{
    Vector2D::new(4, 24)
}

/// The margin at the bottom right: 4 pixels both ways.
pub fn bottom_right_margin() -> (r: Vector2D<i32>)
    ensures
        r == (Vector2D { x: 4i32, y: 4i32 }),
{
    Vector2D::new(4, 4)
}

impl Window {
    /// The window's pixels.
    pub open spec fn base_spec(&self) -> WindowBase {
        match self {
            Window::Base(b) => *b,
            Window::Toplevel { base, .. } => *base,
        }
    }

    /// The window with its pixels replaced by `b`.
    pub open spec fn with_base(&self, b: WindowBase) -> Window {
        match self {
            Window::Base(_) => Window::Base(b),
            Window::Toplevel { title, .. } => Window::Toplevel { base: b, title: *title },
        }
    }

    /// A top-level window's title bar, with its title and close button,
    /// fits the window.
    pub open spec fn wf(&self) -> bool {
        &&& self.base_spec().wf()
        &&& self matches Window::Toplevel { base, title } ==> {
            &&& base.width_spec() >= 36
            &&& base.height_spec() >= 21
            &&& 24 + 8 * title@.len() <= base.width_spec()
        }
    }

    /// The size of the area drawn in: the whole window, or a top-level
    /// window less its margins.
    pub open spec fn size_spec(&self) -> Vector2D<int> {
        match self {
            Window::Base(b) => Vector2D { x: b.width_spec(), y: b.height_spec() },
            Window::Toplevel { base, .. } => Vector2D { x: base.width_spec() - 8, y: base.height_spec() - 28 },
        }
    }

    /// Where drawing-area position (`x`, `y`) lies in the window's pixels.
    pub open spec fn offset(&self) -> Vector2D<int> {
        match self {
            Window::Base(_) => Vector2D { x: 0, y: 0 },
            Window::Toplevel { .. } => Vector2D { x: 4, y: 24 },
        }
    }

    /// A bare window of the given size.
    pub fn new_base(width: u32, height: u32, shadow_format: PixelFormat) -> (r: Self)
        requires
            width <= SMALL,
            height <= SMALL,
            width * height <= usize::MAX,
        ensures
            r.wf(),
            r is Base,
            r.base_spec().width_spec() == width,
            r.base_spec().height_spec() == height,
            r.base_spec().format_spec() == shadow_format,
            r.base_spec().transparent_spec() is None,
            forall|x: int, y: int| inside(x, y, width as int, height as int) ==> #[trigger] r.base_spec().pixel(x, y) == (PixelColor { r: 0, g: 0, b: 0 }),
    {
        Window::Base(WindowBase::new(width, height, shadow_format))
    }

    /// A top-level window of the given size with its frame, title bar,
    /// title and close button drawn.
    pub fn new_toplevel(width: u32, height: u32, shadow_format: PixelFormat, title: &str, font: &BitmapFont) -> (r: Self)
        requires
            36 <= width <= SMALL,
            21 <= height <= SMALL,
            width * height <= usize::MAX,
            font.wf(),
            24 + 8 * title.spec_bytes().len() <= width,
        ensures
            r.wf(),
            r matches Window::Toplevel { title: t, .. } && t@ == title.spec_bytes(),
            r.base_spec().width_spec() == width,
            r.base_spec().height_spec() == height,
            r.base_spec().format_spec() == shadow_format,
            r.base_spec().transparent_spec() is None,
            forall|x: int, y: int| inside(x, y, width as int, height as int) ==> #[trigger] r.base_spec().pixel(x, y)
                == button_color(true, width as int, x, y,
                    if text_bit(font, title.spec_bytes(), x - 24, y - 4) {
                        PixelColor { r: 0xff, g: 0xff, b: 0xff }
                    } else {
                        frame_color(x, y, width as int, height as int, PixelColor { r: 0, g: 0, b: 0 })
                    }),
    {
        let bytes = title.as_bytes();
        let mut base = WindowBase::new(width, height, shadow_format);
        base.draw_window(bytes, font);
        Window::Toplevel { base, title: vstd::slice::slice_to_vec(bytes) }
    }

    /// Draws the title bar of a top-level window: its background, dark
    /// blue when `active` and gray otherwise, the title and the close
    /// button. A bare window is left as it is.
    pub fn draw_window_title(&mut self, active: bool, font: &BitmapFont)
        requires
            old(self).wf(),
            font.wf(),
        ensures
            final(self).wf(),
            *final(self) is Base ==> *final(self) == *old(self),
            *final(self) is Toplevel == *old(self) is Toplevel,
            *old(self) matches Window::Toplevel { base: ob, title: ot } ==> (*final(self) matches Window::Toplevel { base: nb, title: nt } && {
                &&& nt@ == ot@
                &&& nb.width_spec() == ob.width_spec()
                &&& nb.height_spec() == ob.height_spec()
                &&& nb.format_spec() == ob.format_spec()
                &&& nb.transparent_spec() == ob.transparent_spec()
                &&& forall|x: int, y: int| inside(x, y, ob.width_spec(), ob.height_spec()) ==> #[trigger] nb.pixel(x, y)
                    == button_color(false, ob.width_spec(), x, y,
                        if text_bit(font, ot@, x - 24, y - 4) {
                            PixelColor { r: 0xff, g: 0xff, b: 0xff }
                        } else if in_rect(x, y, Vector2D { x: 3i32, y: 3i32 }, Vector2D { x: (ob.width_spec() - 6) as i32, y: 18i32 }) {
                            if active { PixelColor { r: 0, g: 0, b: 0x84 } } else { PixelColor { r: 0x84, g: 0x84, b: 0x84 } }
                        } else {
                            ob.pixel(x, y)
                        })
            }),
            title_drawn(*old(self), *final(self), active, *font),
    {
        match self {
            Window::Base(_) => {},
            Window::Toplevel { base, title } => {
                proof { base.lemma_dims(); }
                let w = base.width as i32;
                let bg = if active { PixelColor::new(0, 0, 0x84) } else { PixelColor::new(0x84, 0x84, 0x84) };
                let white = PixelColor::new(0xff, 0xff, 0xff);
                let ghost s0 = *base;
                base.fill_rectangle(Vector2D::new(3, 3), Vector2D::new(w - 6, 18), &bg);
                let ghost s1 = *base;
                write_string(&mut base.shadow_buffer, Vector2D::new(24, 4), title.as_slice(), &white, font);
                let ghost s2 = *base;
                base.draw_close_button(false);
                proof {
                    assert forall|x: int, y: int| inside(x, y, s0.width_spec(), s0.height_spec()) implies #[trigger] base.pixel(x, y)
                        == button_color(false, s0.width_spec(), x, y,
                            if text_bit(font, title@, x - 24, y - 4) { white } else if in_rect(x, y, Vector2D { x: 3i32, y: 3i32 }, Vector2D { x: (s0.width_spec() - 6) as i32, y: 18i32 }) {
                                bg
                            } else {
                                s0.pixel(x, y)
                            }) by {
                        assert(s1.pixel(x, y) == if in_rect(x, y, Vector2D { x: 3i32, y: 3i32 }, Vector2D { x: (w - 6) as i32, y: 18i32 }) { bg } else { s0.pixel(x, y) });
                        assert(s2.pixel(x, y) == if text_bit(font, title@, x - 24, y - 4) { white } else { s1.pixel(x, y) });
                    }
                }
            },
        }
    }

    /// Shows the window as active: a top-level window's title bar turns
    /// dark blue.
    pub fn activate(&mut self, font: &BitmapFont)
        requires
            old(self).wf(),
            font.wf(),
        ensures
            final(self).wf(),
            *final(self) is Base ==> *final(self) == *old(self),
            *final(self) is Toplevel == *old(self) is Toplevel,
            final(self).size_spec() == old(self).size_spec(),
            final(self).base_spec().width_spec() == old(self).base_spec().width_spec(),
            final(self).base_spec().height_spec() == old(self).base_spec().height_spec(),
            final(self).base_spec().format_spec() == old(self).base_spec().format_spec(),
            final(self).base_spec().transparent_spec() == old(self).base_spec().transparent_spec(),
            title_drawn(*old(self), *final(self), true, *font),
    {
        self.base_mut().activate();
        self.draw_window_title(true, font);
    }

    /// Shows the window as inactive: a top-level window's title bar turns
    /// gray.
    pub fn deactivate(&mut self, font: &BitmapFont)
        requires
            old(self).wf(),
            font.wf(),
        ensures
            final(self).wf(),
            *final(self) is Base ==> *final(self) == *old(self),
            *final(self) is Toplevel == *old(self) is Toplevel,
            final(self).size_spec() == old(self).size_spec(),
            final(self).base_spec().width_spec() == old(self).base_spec().width_spec(),
            final(self).base_spec().height_spec() == old(self).base_spec().height_spec(),
            final(self).base_spec().format_spec() == old(self).base_spec().format_spec(),
            final(self).base_spec().transparent_spec() == old(self).base_spec().transparent_spec(),
            title_drawn(*old(self), *final(self), false, *font),
    {
        self.base_mut().activate();
        self.draw_window_title(false, font);
    }

    /// The window's pixels.
    pub fn base(&self) -> (r: &WindowBase)
        ensures
            *r == self.base_spec(),
    {
        match self {
            Window::Base(b) => b,
            Window::Toplevel { base, .. } => base,
        }
    }

    /// The window's pixels, to change in place.
    pub fn base_mut(&mut self) -> (r: &mut WindowBase)
        ensures
            *r == old(self).base_spec(),
            *final(self) == old(self).with_base(*final(r)),
    {
        match self {
            Window::Base(b) => b,
            Window::Toplevel { base, .. } => base,
        }
    }

    /// Width of the drawing area, wrapped to `u32` when negative.
    pub fn width(&self) -> (r: u32)
        requires
            self.wf(),
        ensures
            r == self.size_spec().x as u32,
    {
        let s = self.size();
        s.x as u32
    }

    /// Height of the drawing area, wrapped to `u32` when negative.
    pub fn height(&self) -> (r: u32)
        requires
            self.wf(),
        ensures
            r == self.size_spec().y as u32,
    {
        let s = self.size();
        s.y as u32
    }

    /// Size of the drawing area.
    pub fn size(&self) -> (r: Vector2D<i32>)
        requires
            self.wf(),
        ensures
            r.x == self.size_spec().x,
            r.y == self.size_spec().y,
    {
        match self {
            Window::Base(base) => base.size(),
            Window::Toplevel { base, .. } => {
                let s = base.size();
                s.minus(top_left_margin()).minus(bottom_right_margin())
            },
        }
    }

    /// Draws the part `area` of the screen covered by the window placed at
    /// `pos` into `dst`, as `WindowBase::draw_to` does.
    pub fn draw_to(&self, dst: &mut FrameBuffer, pos: Vector2D<i32>, area: &Rectangle<i32>)
        requires
            self.wf(),
            old(dst).wf(),
            small(pos),
            small(area.pos),
            small(area.size),
            area.size.x >= 0,
            area.size.y >= 0,
            self.base_spec().format_spec() == old(dst).format_spec(),
        ensures
            final(dst).wf(),
            final(dst).width_spec() == old(dst).width_spec(),
            final(dst).height_spec() == old(dst).height_spec(),
            final(dst).format_spec() == old(dst).format_spec(),
            forall|x: int, y: int| inside(x, y, old(dst).width_spec(), old(dst).height_spec()) ==> #[trigger] final(dst).pixel(x, y)
                == self.base_spec().drawn_pixel(pos, *area, old(dst).width_spec(), old(dst).height_spec(), old(dst).pixel(x, y), x, y),
    {
        self.base().draw_to(dst, pos, area)
    }

    /// Moves the rectangle `src` of the window's pixels to `dst_pos`.
    pub fn move_area(&mut self, dst_pos: Vector2D<i32>, src: &Rectangle<i32>)
        requires
            old(self).wf(),
            small(dst_pos),
            rect_inside(src.pos, src.size, old(self).base_spec().width_spec(), old(self).base_spec().height_spec()),
            rect_inside(dst_pos, src.size, old(self).base_spec().width_spec(), old(self).base_spec().height_spec()),
            dst_pos.y != src.pos.y,
        ensures
            final(self).wf(),
            *final(self) is Toplevel == *old(self) is Toplevel,
            final(self).size_spec() == old(self).size_spec(),
            final(self).base_spec().format_spec() == old(self).base_spec().format_spec(),
            final(self).base_spec().transparent_spec() == old(self).base_spec().transparent_spec(),
            forall|x: int, y: int| inside(x, y, old(self).base_spec().width_spec(), old(self).base_spec().height_spec()) ==> #[trigger] final(self).base_spec().pixel(x, y)
                == if in_rect(x, y, dst_pos, src.size) {
                    old(self).base_spec().pixel(x - dst_pos.x + src.pos.x, y - dst_pos.y + src.pos.y)
                } else {
                    old(self).base_spec().pixel(x, y)
                },
    {
        self.base_mut().move_area(dst_pos, src)
    }

    /// Sets or clears the transparent color.
    pub fn set_transparent_color(&mut self, c: Option<PixelColor>)
        requires
            old(self).wf(),
        ensures
            final(self).wf(),
            *final(self) is Toplevel == *old(self) is Toplevel,
            final(self).size_spec() == old(self).size_spec(),
            final(self).base_spec().transparent_spec() == c,
            final(self).base_spec().format_spec() == old(self).base_spec().format_spec(),
            forall|x: int, y: int| #[trigger] final(self).base_spec().pixel(x, y) == old(self).base_spec().pixel(x, y),
    {
        self.base_mut().set_transparent_color(c)
    }

    /// The color at `pos` of the window's pixels.
    pub fn at(&self, pos: Vector2D<i32>) -> (r: PixelColor)
        requires
            self.wf(),
            inside(pos.x as int, pos.y as int, self.base_spec().width_spec(), self.base_spec().height_spec()),
        ensures
            r == self.base_spec().pixel(pos.x as int, pos.y as int),
    {
        self.base().at(pos)
    }

    /// Paints `pos` of the drawing area: for a top-level window, `pos` is
    /// taken from the top left margin.
    pub fn write(&mut self, pos: Vector2D<i32>, color: &PixelColor)
        requires
            old(self).wf(),
            small(pos),
            inside(pos.x + old(self).offset().x, pos.y + old(self).offset().y,
                old(self).base_spec().width_spec(), old(self).base_spec().height_spec()),
        ensures
            final(self).wf(),
            *final(self) is Toplevel == *old(self) is Toplevel,
            final(self).size_spec() == old(self).size_spec(),
            final(self).offset() == old(self).offset(),
            final(self).base_spec().format_spec() == old(self).base_spec().format_spec(),
            final(self).base_spec().transparent_spec() == old(self).base_spec().transparent_spec(),
            forall|x: int, y: int| inside(x, y, old(self).base_spec().width_spec(), old(self).base_spec().height_spec()) ==> #[trigger] final(self).base_spec().pixel(x, y)
                == if x == pos.x + old(self).offset().x && y == pos.y + old(self).offset().y { *color } else { old(self).base_spec().pixel(x, y) },
    {
        match self {
            Window::Base(base) => base.write(pos, color),
            Window::Toplevel { base, .. } => base.write(pos.plus(top_left_margin()), color),
        }
    }

    /// Paints the rectangle at `pos` of the drawing area (from the top left
    /// margin of a top-level window) with `c`; an empty rectangle paints
    /// nothing.
    pub fn fill_rectangle(&mut self, pos: Vector2D<i32>, size: Vector2D<i32>, c: &PixelColor)
        requires
            old(self).wf(),
            small(pos),
            size.x <= 0 || size.y <= 0 || rect_inside(
                Vector2D { x: (pos.x + old(self).offset().x) as i32, y: (pos.y + old(self).offset().y) as i32 },
                size, old(self).base_spec().width_spec(), old(self).base_spec().height_spec()),
        ensures
            final(self).wf(),
            *final(self) is Toplevel == *old(self) is Toplevel,
            final(self).size_spec() == old(self).size_spec(),
            final(self).offset() == old(self).offset(),
            final(self).base_spec().width_spec() == old(self).base_spec().width_spec(),
            final(self).base_spec().height_spec() == old(self).base_spec().height_spec(),
            final(self).base_spec().format_spec() == old(self).base_spec().format_spec(),
            final(self).base_spec().transparent_spec() == old(self).base_spec().transparent_spec(),
            forall|x: int, y: int| inside(x, y, old(self).base_spec().width_spec(), old(self).base_spec().height_spec()) ==> #[trigger] final(self).base_spec().pixel(x, y)
                == if in_rect(x - old(self).offset().x, y - old(self).offset().y, pos, size) { *c } else { old(self).base_spec().pixel(x, y) },
    {
        match self {
            Window::Base(base) => base.fill_rectangle(pos, size, c),
            Window::Toplevel { base, .. } => base.fill_rectangle(pos.plus(top_left_margin()), size, c),
        }
    }

    /// Draws character `c` of `font` at `pos` of the drawing area.
    pub fn write_ascii(&mut self, pos: Vector2D<i32>, c: u8, color: &PixelColor, font: &BitmapFont)
        requires
            old(self).wf(),
            font.wf(),
            small(pos),
            rect_inside(
                Vector2D { x: (pos.x + old(self).offset().x) as i32, y: (pos.y + old(self).offset().y) as i32 },
                Vector2D { x: 8i32, y: 16i32 }, old(self).base_spec().width_spec(), old(self).base_spec().height_spec()),
        ensures
            final(self).wf(),
            *final(self) is Toplevel == *old(self) is Toplevel,
            final(self).size_spec() == old(self).size_spec(),
            final(self).offset() == old(self).offset(),
            final(self).base_spec().width_spec() == old(self).base_spec().width_spec(),
            final(self).base_spec().height_spec() == old(self).base_spec().height_spec(),
            final(self).base_spec().format_spec() == old(self).base_spec().format_spec(),
            final(self).base_spec().transparent_spec() == old(self).base_spec().transparent_spec(),
            forall|x: int, y: int| inside(x, y, old(self).base_spec().width_spec(), old(self).base_spec().height_spec()) ==> #[trigger] final(self).base_spec().pixel(x, y)
                == if in_rect(x - old(self).offset().x, y - old(self).offset().y, pos, Vector2D { x: 8i32, y: 16i32 })
                    && glyph_bit(font.row_of(c, y - old(self).offset().y - pos.y), x - old(self).offset().x - pos.x) {
                    *color
                } else {
                    old(self).base_spec().pixel(x, y)
                },
    {
        match self {
            Window::Base(base) => base.write_ascii(pos, c, color, font),
            Window::Toplevel { base, .. } => base.write_ascii(pos.plus(top_left_margin()), c, color, font),
        }
    }

    /// Draws the outline of the rectangle at `pos` of size `size` of the
    /// drawing area with `c`: its top and bottom rows and its left and
    /// right columns.
    pub fn draw_rectangle(&mut self, pos: Vector2D<i32>, size: Vector2D<i32>, c: &PixelColor)
        requires
            old(self).wf(),
            small(pos),
            small(size),
            size.x > 0,
            size.y > 0,
            rect_inside(
                Vector2D { x: (pos.x + old(self).offset().x) as i32, y: (pos.y + old(self).offset().y) as i32 },
                size, old(self).base_spec().width_spec(), old(self).base_spec().height_spec()),
        ensures
            final(self).wf(),
            *final(self) is Toplevel == *old(self) is Toplevel,
            final(self).size_spec() == old(self).size_spec(),
            final(self).offset() == old(self).offset(),
            final(self).base_spec().width_spec() == old(self).base_spec().width_spec(),
            final(self).base_spec().height_spec() == old(self).base_spec().height_spec(),
            final(self).base_spec().format_spec() == old(self).base_spec().format_spec(),
            final(self).base_spec().transparent_spec() == old(self).base_spec().transparent_spec(),
            forall|x: int, y: int| inside(x, y, old(self).base_spec().width_spec(), old(self).base_spec().height_spec()) ==> #[trigger] final(self).base_spec().pixel(x, y)
                == if in_rect(x - old(self).offset().x, y - old(self).offset().y, pos, size)
                    && (x - old(self).offset().x == pos.x || x - old(self).offset().x == pos.x + size.x - 1
                        || y - old(self).offset().y == pos.y || y - old(self).offset().y == pos.y + size.y - 1) {
                    *c
                } else {
                    old(self).base_spec().pixel(x, y)
                },
    {
        proof { self.base_spec().lemma_dims(); }
        let ghost s0 = *self;
        self.fill_rectangle(pos, Vector2D::new(size.x, 1), c);
        let ghost s1 = *self;
        self.fill_rectangle(Vector2D::new(pos.x, pos.y + size.y - 1), Vector2D::new(size.x, 1), c);
        let ghost s2 = *self;
        self.fill_rectangle(pos, Vector2D::new(1, size.y), c);
        let ghost s3 = *self;
        self.fill_rectangle(Vector2D::new(pos.x + size.x - 1, pos.y), Vector2D::new(1, size.y), c);
        proof {
            let w = s0.base_spec().width_spec();
            let h = s0.base_spec().height_spec();
            assert forall|x: int, y: int| inside(x, y, w, h) implies #[trigger] self.base_spec().pixel(x, y)
                == if in_rect(x - s0.offset().x, y - s0.offset().y, pos, size)
                    && (x - s0.offset().x == pos.x || x - s0.offset().x == pos.x + size.x - 1
                        || y - s0.offset().y == pos.y || y - s0.offset().y == pos.y + size.y - 1) {
                    *c
                } else {
                    s0.base_spec().pixel(x, y)
                } by {
                let seen = (s1.base_spec().pixel(x, y), s2.base_spec().pixel(x, y), s3.base_spec().pixel(x, y));
            }
        }
    }
}

} // verus!
