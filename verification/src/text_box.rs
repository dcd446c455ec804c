//! The text box of the kernel's main window: typed characters, a backspace
//! and a blinking cursor.
use vstd::prelude::*;
use crate::font::{glyph_bit, BitmapFont};
use crate::frame_buffer::{in_rect, inside};
use crate::graphics::{PixelColor, Vector2D};
use crate::window::WindowBase;

verus! {

/// Black and white, the text box's ink and paper.
pub open spec fn ink() -> PixelColor {
    PixelColor { r: 0, g: 0, b: 0 }
}

pub open spec fn paper() -> PixelColor {
    PixelColor { r: 255, g: 255, b: 255 }
}

/// Where the character at `index` of the box is drawn.
pub open spec fn char_pos(index: int) -> Vector2D<i32> {
    Vector2D { x: (8 + 8 * index) as i32, y: 30i32 }
}

/// How many characters fit a box in a window `width` pixels wide.
pub open spec fn max_chars(width: int) -> int {
    (width - 16) / 8
}

/// The color at (`x`, `y`) once the cursor at `index` was drawn (black) or
/// hidden (white) over `under`.
pub open spec fn text_cursor_pixel(visible: bool, index: int, under: PixelColor, x: int, y: int) -> PixelColor {
    if in_rect(x, y, Vector2D { x: (8 + 8 * index) as i32, y: 29i32 }, Vector2D { x: 7i32, y: 15i32 }) {
        if visible { ink() } else { paper() }
    } else {
        under
    }
}

/// Whether window `w` can hold a text box: wide enough for its margins
/// and tall enough for a line of text below the title bar.
pub open spec fn box_fits(w: WindowBase) -> bool {
    &&& w.wf()
    &&& 16 <= w.width_spec() <= 0x10000
    &&& 46 <= w.height_spec()
}

/// The state of the text box: how many characters were typed, and
/// whether its cursor is shown.
pub struct TextBox {
    pub index: i32,
    pub cursor_visible: bool,
}

impl TextBox {
    /// Whether the box's cursor stays in window `w`.
    pub open spec fn wf(&self, w: WindowBase) -> bool {
        0 <= self.index <= max_chars(w.width_spec() as int)
    }

    /// An empty box with its cursor hidden.
    pub fn new() -> (r: Self)
        ensures
            r.index == 0,
            !r.cursor_visible,
    {
        TextBox { index: 0, cursor_visible: false }
    }

    /// Types `ascii`: a backspace erases the last character, a printable
    /// character (from the space up) is added while there is room; any
    /// other key changes nothing. The cursor is drawn after the last
    /// character.
    pub fn input(&mut self, window: &mut WindowBase, ascii: u8, font: &BitmapFont)
        requires
            box_fits(*old(window)),
            old(self).wf(*old(window)),
            font.wf(),
        ensures
            box_fits(*final(window)),
            final(window).width_spec() == old(window).width_spec(),
            final(window).height_spec() == old(window).height_spec(),
            final(self).wf(*final(window)),
            final(self).cursor_visible == old(self).cursor_visible,
            ({
                let i = old(self).index as int;
                if ascii == 8 && i > 0 {
                    &&& final(self).index == i - 1
                    &&& forall|x: int, y: int| inside(x, y, old(window).width_spec(), old(window).height_spec())
                        ==> #[trigger] final(window).pixel(x, y) == text_cursor_pixel(true, i - 1,
                            if in_rect(x, y, char_pos(i - 1), Vector2D { x: 8i32, y: 16i32 }) { paper() }
                            else { text_cursor_pixel(false, i, old(window).pixel(x, y), x, y) }, x, y)
                } else if ascii >= 0x20 && i < max_chars(old(window).width_spec() as int) {
                    &&& final(self).index == i + 1
                    &&& forall|x: int, y: int| inside(x, y, old(window).width_spec(), old(window).height_spec())
                        ==> #[trigger] final(window).pixel(x, y) == text_cursor_pixel(true, i + 1,
                            if in_rect(x, y, char_pos(i), Vector2D { x: 8i32, y: 16i32 }) && glyph_bit(font.row_of(ascii, y - 30), x - char_pos(i).x) { ink() }
                            else { text_cursor_pixel(false, i, old(window).pixel(x, y), x, y) }, x, y)
                } else {
                    *final(self) == *old(self) && *final(window) == *old(window)
                }
            }),
    {
        let i = self.index;
        let ghost w0 = *window;
        if ascii == 8 && i > 0 {
            draw_text_cursor(false, i, window);
            let ghost w1 = *window;
            self.index = i - 1;
            window.fill_rectangle(Vector2D::new(8 + 8 * (i - 1), 30), Vector2D::new(8, 16), &PixelColor::new(255, 255, 255));
            let ghost w2 = *window;
            draw_text_cursor(true, i - 1, window);
            proof {
                assert forall|x: int, y: int| inside(x, y, w0.width_spec(), w0.height_spec())
                    implies #[trigger] window.pixel(x, y) == text_cursor_pixel(true, i - 1,
                        if in_rect(x, y, char_pos(i - 1), Vector2D { x: 8i32, y: 16i32 }) { paper() }
                        else { text_cursor_pixel(false, i as int, w0.pixel(x, y), x, y) }, x, y) by {
                    assert(w1.pixel(x, y) == text_cursor_pixel(false, i as int, w0.pixel(x, y), x, y));
                    assert(w2.pixel(x, y) == if in_rect(x, y, char_pos(i - 1), Vector2D { x: 8i32, y: 16i32 }) { paper() } else { w1.pixel(x, y) });
                }
            }
        } else if ascii >= 0x20 && i < (window.width() as i32 - 16) / 8 {
            draw_text_cursor(false, i, window);
            let ghost w1 = *window;
            window.write_ascii(Vector2D::new(8 + 8 * i, 30), ascii, &PixelColor::new(0, 0, 0), font);
            let ghost w2 = *window;
            self.index = i + 1;
            draw_text_cursor(true, i + 1, window);
            proof {
                assert forall|x: int, y: int| inside(x, y, w0.width_spec(), w0.height_spec())
                    implies #[trigger] window.pixel(x, y) == text_cursor_pixel(true, i + 1,
                        if in_rect(x, y, char_pos(i as int), Vector2D { x: 8i32, y: 16i32 }) && glyph_bit(font.row_of(ascii, y - 30), x - char_pos(i as int).x) { ink() }
                        else { text_cursor_pixel(false, i as int, w0.pixel(x, y), x, y) }, x, y) by {
                    assert(w1.pixel(x, y) == text_cursor_pixel(false, i as int, w0.pixel(x, y), x, y));
                }
            }
        }
    }

    /// The cursor timer fired: the cursor is shown if it was hidden and
    /// hidden if it was shown.
    pub fn blink(&mut self, window: &mut WindowBase)
        requires
            box_fits(*old(window)),
            old(self).wf(*old(window)),
        ensures
            box_fits(*final(window)),
            final(window).width_spec() == old(window).width_spec(),
            final(window).height_spec() == old(window).height_spec(),
            final(self).index == old(self).index,
            final(self).cursor_visible == !old(self).cursor_visible,
            forall|x: int, y: int| inside(x, y, old(window).width_spec(), old(window).height_spec())
                ==> #[trigger] final(window).pixel(x, y)
                    == text_cursor_pixel(!old(self).cursor_visible, old(self).index as int, old(window).pixel(x, y), x, y),
    {
        self.cursor_visible = !self.cursor_visible;
        draw_text_cursor(self.cursor_visible, self.index, window);
    }
}

/// Draws (black) or hides (white) the text box's cursor after the
/// character at `index`.
pub fn draw_text_cursor(visible: bool, index: i32, window: &mut WindowBase)
    requires
        box_fits(*old(window)),
        0 <= index <= max_chars(old(window).width_spec() as int),
    ensures
        box_fits(*final(window)),
        final(window).width_spec() == old(window).width_spec(),
        final(window).height_spec() == old(window).height_spec(),
        final(window).format_spec() == old(window).format_spec(),
        final(window).transparent_spec() == old(window).transparent_spec(),
        forall|x: int, y: int| inside(x, y, old(window).width_spec(), old(window).height_spec())
            ==> #[trigger] final(window).pixel(x, y) == text_cursor_pixel(visible, index as int, old(window).pixel(x, y), x, y),
{
    let color = if visible { PixelColor::new(0, 0, 0) } else { PixelColor::new(255, 255, 255) };
    window.fill_rectangle(Vector2D::new(8 + 8 * index, 29), Vector2D::new(7, 15), &color);
}

} // verus!
