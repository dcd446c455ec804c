//! Writers that paint pixels: straight into the screen's memory, in either
//! of its two byte orders, or into a shadow buffer; and the desktop that is
//! drawn with them.
use vstd::prelude::*;
use crate::frame_buffer::{
    inside, lemma_index_in_range, lemma_index_injective, pixel_index, FrameBuffer, FrameBufferConfig, PixelFormat,
};
use crate::graphics::{PixelColor, Vector2D};

verus! {

/// Whether (`x`, `y`) lies in the area at `pos` of size `size`.
pub open spec fn in_area(x: int, y: int, pos: Vector2D<u32>, size: Vector2D<u32>) -> bool {
    pos.x <= x < pos.x + size.x && pos.y <= y < pos.y + size.y
}

/// Whether the area at `pos` of size `size` lies in a `w` by `h` screen.
pub open spec fn area_inside(pos: Vector2D<u32>, size: Vector2D<u32>, w: int, h: int) -> bool {
    &&& pos.x + size.x <= w
    &&& pos.y + size.y <= h
    &&& pos.x + size.x <= 0x1_0000_0000
    &&& pos.y + size.y <= 0x1_0000_0000
}

/// Something that paints pixels of a screen `width` by `height` pixels.
pub trait PixelWriter {
    /// The writer's invariant.
    spec fn writer_wf(&self) -> bool;

    /// What the writer says of the screen.
    spec fn config_spec(&self) -> FrameBufferConfig;

    /// The color of pixel (`x`, `y`).
    spec fn color_at(&self, x: int, y: int) -> PixelColor;

    /// Paints the pixel at `pos`.
    fn write(&mut self, pos: Vector2D<u32>, color: &PixelColor)
        requires
            old(self).writer_wf(),
            pos.x < old(self).config_spec().horizontal_resolution,
            pos.y < old(self).config_spec().vertical_resolution,
        ensures
            final(self).writer_wf(),
            final(self).config_spec() == old(self).config_spec(),
            forall|x: int, y: int| inside(x, y, old(self).config_spec().horizontal_resolution as int, old(self).config_spec().vertical_resolution as int)
                ==> #[trigger] final(self).color_at(x, y) == if x == pos.x && y == pos.y { *color } else { old(self).color_at(x, y) },
    ;

    /// Where the screen's memory starts.
    fn frame_buffer(&self) -> (r: usize)
        ensures
            r == self.config_spec().frame_buffer,
    ;

    /// Pixels from the start of a row to the start of the next.
    fn pixels_per_scan_line(&self) -> (r: usize)
        ensures
            r == self.config_spec().pixels_per_scan_line,
    ;

    /// Width of the screen in pixels.
    fn horizontal_resolution(&self) -> (r: usize)
        ensures
            r == self.config_spec().horizontal_resolution,
    ;

    /// Height of the screen in pixels.
    fn vertical_resolution(&self) -> (r: usize)
        ensures
            r == self.config_spec().vertical_resolution,
    ;

    /// Paints the outline of the rectangle at `pos` of size `size`: its top
    /// and bottom rows and its left and right columns. A rectangle with no
    /// width and no height paints nothing.
    fn draw_rectangle(&mut self, pos: Vector2D<u32>, size: Vector2D<u32>, c: &PixelColor)
        requires
            old(self).writer_wf(),
            (size.x == 0) == (size.y == 0),
            area_inside(pos, size, old(self).config_spec().horizontal_resolution as int, old(self).config_spec().vertical_resolution as int),
        ensures
            final(self).writer_wf(),
            final(self).config_spec() == old(self).config_spec(),
            forall|x: int, y: int| inside(x, y, old(self).config_spec().horizontal_resolution as int, old(self).config_spec().vertical_resolution as int)
                ==> #[trigger] final(self).color_at(x, y) == if in_area(x, y, pos, size)
                    && (x == pos.x || x == pos.x + size.x - 1 || y == pos.y || y == pos.y + size.y - 1) {
                    *c
                } else {
                    old(self).color_at(x, y)
                },
    {
        if size.x == 0 {
            return;
        }
        self.fill_rectangle(pos, Vector2D::new(size.x, 1), c);
        self.fill_rectangle(Vector2D::new(pos.x, pos.y + (size.y - 1)), Vector2D::new(size.x, 1), c);
        self.fill_rectangle(pos, Vector2D::new(1, size.y), c);
        self.fill_rectangle(Vector2D::new(pos.x + (size.x - 1), pos.y), Vector2D::new(1, size.y), c);
    }

    /// Paints the rectangle at `pos` of size `size` with `c`.
    fn fill_rectangle(&mut self, pos: Vector2D<u32>, size: Vector2D<u32>, c: &PixelColor)
        requires
            old(self).writer_wf(),
            area_inside(pos, size, old(self).config_spec().horizontal_resolution as int, old(self).config_spec().vertical_resolution as int),
        ensures
            final(self).writer_wf(),
            final(self).config_spec() == old(self).config_spec(),
            forall|x: int, y: int| inside(x, y, old(self).config_spec().horizontal_resolution as int, old(self).config_spec().vertical_resolution as int)
                ==> #[trigger] final(self).color_at(x, y) == if in_area(x, y, pos, size) { *c } else { old(self).color_at(x, y) },
    {
        let ghost w = self.config_spec().horizontal_resolution as int;
        let ghost h = self.config_spec().vertical_resolution as int;
        let mut dy: u32 = 0;
        while dy < size.y
            invariant
                self.writer_wf(),
                self.config_spec() == old(self).config_spec(),
                w == old(self).config_spec().horizontal_resolution,
                h == old(self).config_spec().vertical_resolution,
                area_inside(pos, size, w, h),
                dy <= size.y,
                forall|x: int, y: int| inside(x, y, w, h) ==> #[trigger] self.color_at(x, y)
                    == if in_area(x, y, pos, Vector2D { x: size.x, y: dy }) { *c } else { old(self).color_at(x, y) },
            decreases size.y - dy,
        {
            let mut dx: u32 = 0;
            while dx < size.x
                invariant
                    self.writer_wf(),
                    self.config_spec() == old(self).config_spec(),
                    w == old(self).config_spec().horizontal_resolution,
                    h == old(self).config_spec().vertical_resolution,
                    area_inside(pos, size, w, h),
                    dy < size.y,
                    dx <= size.x,
                    forall|x: int, y: int| inside(x, y, w, h) ==> #[trigger] self.color_at(x, y)
                        == if in_area(x, y, pos, Vector2D { x: size.x, y: dy }) || (y == pos.y + dy && pos.x <= x < pos.x + dx) {
                            *c
                        } else {
                            old(self).color_at(x, y)
                        },
                decreases size.x - dx,
            {
                self.write(Vector2D::new(pos.x + dx, pos.y + dy), c);
                dx = dx + 1;
            }
            dy = dy + 1;
        }
    }
}

/// The byte offset of pixel (`x`, `y`) in screen memory with `ppsl` pixels
/// per row and four bytes per pixel.
pub open spec fn pixel_offset(x: int, y: int, ppsl: int) -> int {
    4 * pixel_index(x, y, ppsl)
}

/// Screen memory of `config`: rows of `pixels_per_scan_line` pixels of four
/// bytes, as many rows as the height, each row at least as wide as the
/// screen, with sides that fit in `u32`.
pub open spec fn memory_fits(config: FrameBufferConfig, len: int) -> bool {
    &&& config.horizontal_resolution <= config.pixels_per_scan_line
    &&& 4 * (config.pixels_per_scan_line * config.vertical_resolution) <= len
    &&& config.horizontal_resolution <= u32::MAX
    &&& config.vertical_resolution <= u32::MAX
}

/// Pixel (`x`, `y`) lies in screen memory, and no other pixel of the screen
/// shares any of its four bytes.
proof fn lemma_pixel_bytes(config: FrameBufferConfig, len: int, x: int, y: int)
    requires
        memory_fits(config, len),
        inside(x, y, config.horizontal_resolution as int, config.vertical_resolution as int),
    ensures
        0 <= pixel_offset(x, y, config.pixels_per_scan_line as int),
        pixel_offset(x, y, config.pixels_per_scan_line as int) + 4 <= len,
        forall|x2: int, y2: int| #![trigger pixel_offset(x2, y2, config.pixels_per_scan_line as int)]
            inside(x2, y2, config.horizontal_resolution as int, config.vertical_resolution as int) && (x2 != x || y2 != y)
            ==> pixel_offset(x2, y2, config.pixels_per_scan_line as int) + 4 <= pixel_offset(x, y, config.pixels_per_scan_line as int)
            || pixel_offset(x, y, config.pixels_per_scan_line as int) + 4 <= pixel_offset(x2, y2, config.pixels_per_scan_line as int),
{
    let w = config.pixels_per_scan_line as int;
    let h = config.vertical_resolution as int;
    lemma_index_in_range(x, y, w, h);
    assert forall|x2: int, y2: int| #![trigger pixel_offset(x2, y2, w)]
        inside(x2, y2, config.horizontal_resolution as int, h) && (x2 != x || y2 != y)
        implies pixel_offset(x2, y2, w) + 4 <= pixel_offset(x, y, w) || pixel_offset(x, y, w) + 4 <= pixel_offset(x2, y2, w) by {
        if pixel_index(x2, y2, w) == pixel_index(x, y, w) {
            lemma_index_injective(x2, y2, x, y, w);
        }
    }
}

/// A writer for screens whose pixels hold red, green and blue bytes, then
/// a byte that is not used. It holds the screen's memory.
pub struct RgbResv8BitPerColorPixelWriter {
    config: FrameBufferConfig,
    memory: Vec<u8>,
}

impl RgbResv8BitPerColorPixelWriter {
    /// The bytes of the screen's memory.
    pub closed spec fn memory_spec(&self) -> Seq<u8> {
        self.memory@
    }

    /// A writer for the screen `config` whose memory is `memory`.
    pub fn new(config: FrameBufferConfig, memory: Vec<u8>) -> (r: Self)
        requires
            memory_fits(config, memory@.len() as int),
        ensures
            r.writer_wf(),
            r.config_spec() == config,
            r.memory_spec() == memory@,
    {
        RgbResv8BitPerColorPixelWriter { config, memory }
    }

    /// The bytes of the screen's memory.
    pub fn memory(&self) -> (r: &Vec<u8>)
        ensures
            r@ == self.memory_spec(),
    {
        &self.memory
    }
}

impl PixelWriter for RgbResv8BitPerColorPixelWriter {
    closed spec fn writer_wf(&self) -> bool {
        memory_fits(self.config, self.memory@.len() as int)
    }

    closed spec fn config_spec(&self) -> FrameBufferConfig {
        self.config
    }

    closed spec fn color_at(&self, x: int, y: int) -> PixelColor {
        let o = pixel_offset(x, y, self.config.pixels_per_scan_line as int);
        PixelColor { r: self.memory@[o], g: self.memory@[o + 1], b: self.memory@[o + 2] }
    }

    fn write(&mut self, pos: Vector2D<u32>, color: &PixelColor) {
        proof {
            lemma_pixel_bytes(self.config, self.memory@.len() as int, pos.x as int, pos.y as int);
        }
        let len = self.memory.len();
        let o = 4 * (pos.y as usize * self.config.pixels_per_scan_line + pos.x as usize);
        assert(o + 2 < len);
        self.memory.set(o, color.r);
        self.memory.set(o + 1, color.g);
        self.memory.set(o + 2, color.b);
        proof {
            let w = self.config.pixels_per_scan_line as int;
            assert forall|x: int, y: int| inside(x, y, self.config.horizontal_resolution as int, self.config.vertical_resolution as int)
                implies #[trigger] self.color_at(x, y) == if x == pos.x && y == pos.y { *color } else { old(self).color_at(x, y) } by {
                lemma_pixel_bytes(self.config, self.memory@.len() as int, x, y);
                let o2 = pixel_offset(x, y, w);
                assert(o2 == pixel_offset(x, y, w));
            }
        }
    }

    fn frame_buffer(&self) -> usize {
        self.config.frame_buffer
    }

    fn pixels_per_scan_line(&self) -> usize {
        self.config.pixels_per_scan_line
    }

    fn horizontal_resolution(&self) -> usize {
        self.config.horizontal_resolution
    }

    fn vertical_resolution(&self) -> usize {
        self.config.vertical_resolution
    }
}

/// A writer for screens whose pixels hold blue, green and red bytes, then
/// a byte that is not used. It holds the screen's memory.
pub struct BgrResv8BitPerColorPixelWriter {
    config: FrameBufferConfig,
    memory: Vec<u8>,
}

impl BgrResv8BitPerColorPixelWriter {
    /// The bytes of the screen's memory.
    pub closed spec fn memory_spec(&self) -> Seq<u8> {
        self.memory@
    }

    /// A writer for the screen `config` whose memory is `memory`.
    pub fn new(config: FrameBufferConfig, memory: Vec<u8>) -> (r: Self)
        requires
            memory_fits(config, memory@.len() as int),
        ensures
            r.writer_wf(),
            r.config_spec() == config,
            r.memory_spec() == memory@,
    {
        BgrResv8BitPerColorPixelWriter { config, memory }
    }

    /// The bytes of the screen's memory.
    pub fn memory(&self) -> (r: &Vec<u8>)
        ensures
            r@ == self.memory_spec(),
    {
        &self.memory
    }
}

impl PixelWriter for BgrResv8BitPerColorPixelWriter {
    closed spec fn writer_wf(&self) -> bool {
        memory_fits(self.config, self.memory@.len() as int)
    }

    closed spec fn config_spec(&self) -> FrameBufferConfig {
        self.config
    }

    closed spec fn color_at(&self, x: int, y: int) -> PixelColor {
        let o = pixel_offset(x, y, self.config.pixels_per_scan_line as int);
        PixelColor { r: self.memory@[o + 2], g: self.memory@[o + 1], b: self.memory@[o] }
    }

    fn write(&mut self, pos: Vector2D<u32>, color: &PixelColor) {
        proof {
            lemma_pixel_bytes(self.config, self.memory@.len() as int, pos.x as int, pos.y as int);
        }
        let len = self.memory.len();
        let o = 4 * (pos.y as usize * self.config.pixels_per_scan_line + pos.x as usize);
        assert(o + 2 < len);
        self.memory.set(o, color.b);
        self.memory.set(o + 1, color.g);
        self.memory.set(o + 2, color.r);
        proof {
            let w = self.config.pixels_per_scan_line as int;
            assert forall|x: int, y: int| inside(x, y, self.config.horizontal_resolution as int, self.config.vertical_resolution as int)
                implies #[trigger] self.color_at(x, y) == if x == pos.x && y == pos.y { *color } else { old(self).color_at(x, y) } by {
                lemma_pixel_bytes(self.config, self.memory@.len() as int, x, y);
                let o2 = pixel_offset(x, y, w);
                assert(o2 == pixel_offset(x, y, w));
            }
        }
    }

    fn frame_buffer(&self) -> usize {
        self.config.frame_buffer
    }

    fn pixels_per_scan_line(&self) -> usize {
        self.config.pixels_per_scan_line
    }

    fn horizontal_resolution(&self) -> usize {
        self.config.horizontal_resolution
    }

    fn vertical_resolution(&self) -> usize {
        self.config.vertical_resolution
    }
}

/// A frame buffer paints its own pixels; it reports the screen memory it
/// stands for (none, 0, for a shadow buffer).
impl PixelWriter for FrameBuffer {
    open spec fn writer_wf(&self) -> bool {
        self.wf()
    }

    open spec fn config_spec(&self) -> FrameBufferConfig {
        FrameBufferConfig {
            frame_buffer: self.address_spec(),
            pixels_per_scan_line: self.scan_line_spec(),
            horizontal_resolution: self.width_spec() as usize,
            vertical_resolution: self.height_spec() as usize,
            pixel_format: self.format_spec(),
        }
    }

    open spec fn color_at(&self, x: int, y: int) -> PixelColor {
        self.pixel(x, y)
    }

    fn write(&mut self, pos: Vector2D<u32>, color: &PixelColor) {
        proof {
            self.lemma_dims();
        }
        FrameBuffer::write(self, Vector2D::new(pos.x as i32, pos.y as i32), color);
    }

    fn frame_buffer(&self) -> usize {
        FrameBuffer::frame_buffer(self)
    }

    fn pixels_per_scan_line(&self) -> usize {
        FrameBuffer::pixels_per_scan_line(self)
    }

    fn horizontal_resolution(&self) -> usize {
        FrameBuffer::horizontal_resolution(self)
    }

    fn vertical_resolution(&self) -> usize {
        FrameBuffer::vertical_resolution(self)
    }
}

/// The color of pixel (`x`, `y`) of a `w` by `h` desktop: the start button
/// (30 by 30 at (10, h - 40)), then the search box (the left fifth of the
/// task bar), then the task bar (the bottom 50 rows), then the background.
pub open spec fn desktop_color(w: int, h: int, x: int, y: int) -> PixelColor {
    if 10 <= x < 40 && h - 40 <= y < h - 10 {
        PixelColor { r: 160, g: 160, b: 160 }
    } else if 0 <= x < w / 5 && h - 50 <= y < h {
        PixelColor { r: 80, g: 80, b: 80 }
    } else if h - 50 <= y {
        PixelColor { r: 1, g: 8, b: 17 }
    } else {
        PixelColor { r: 45, g: 118, b: 237 }
    }
}

/// Draws the desktop: background, task bar, search box and start button.
pub fn draw_desktop<W: PixelWriter>(writer: &mut W)
    requires
        old(writer).writer_wf(),
        old(writer).config_spec().horizontal_resolution >= 40,
        old(writer).config_spec().vertical_resolution >= 50,
        old(writer).config_spec().horizontal_resolution <= u32::MAX,
        old(writer).config_spec().vertical_resolution <= u32::MAX,
    ensures
        final(writer).writer_wf(),
        final(writer).config_spec() == old(writer).config_spec(),
        forall|x: int, y: int| inside(x, y, old(writer).config_spec().horizontal_resolution as int, old(writer).config_spec().vertical_resolution as int)
            ==> #[trigger] final(writer).color_at(x, y) == desktop_color(
                old(writer).config_spec().horizontal_resolution as int, old(writer).config_spec().vertical_resolution as int, x, y),
{
    let w = writer.horizontal_resolution() as u32;
    let h = writer.vertical_resolution() as u32;
    let ghost w0 = *writer;
    writer.fill_rectangle(Vector2D::new(0, 0), Vector2D::new(w, h - 50), &PixelColor::new(45, 118, 237));
    let ghost w1 = *writer;
    writer.fill_rectangle(Vector2D::new(0, h - 50), Vector2D::new(w, 50), &PixelColor::new(1, 8, 17));
    let ghost w2 = *writer;
    writer.fill_rectangle(Vector2D::new(0, h - 50), Vector2D::new(w / 5, 50), &PixelColor::new(80, 80, 80));
    let ghost w3 = *writer;
    writer.fill_rectangle(Vector2D::new(10, h - 40), Vector2D::new(30, 30), &PixelColor::new(160, 160, 160));
    proof {
        assert forall|x: int, y: int| inside(x, y, w as int, h as int) implies #[trigger] writer.color_at(x, y)
            == desktop_color(w as int, h as int, x, y) by {
            let p = (w1.color_at(x, y), w2.color_at(x, y), w3.color_at(x, y));
        }
    }
}

} // verus!
