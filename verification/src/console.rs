//! The kernel console: a grid of characters drawn in a window, with a
//! cursor that moves right and scrolls the window up at the bottom line.
use vstd::prelude::*;
use crate::font::{glyph_bit, BitmapFont};
use crate::frame_buffer::{in_rect, inside, FrameBufferConfig};
use crate::graphics::{PixelColor, Rectangle, Vector2D};
use crate::layer::{raised, whole, LayerManager, CANVAS};
use crate::window::Window;

verus! {

/// The desktop's background color.
pub fn desktop_bg_color() -> (r: PixelColor)
    ensures
        r == (PixelColor { r: 45, g: 118, b: 237 }),
{
    PixelColor::new(45, 118, 237)
}

/// The desktop's foreground color.
pub fn desktop_fg_color() -> (r: PixelColor)
    ensures
        r == (PixelColor { r: 255, g: 255, b: 255 }),
{
    PixelColor::new(255, 255, 255)
}

/// Sets up the desktop console: a bare window as wide as the screen and
/// 50 pixels shorter (room for the task bar), painted in the desktop's
/// background color, in a new layer just above the background, and a
/// console over it with a row per 16 pixels and a column per 8.
pub fn init(manager: &mut LayerManager) -> (r: Console)
    requires
        old(manager).wf(),
        old(manager).latest_spec() < u32::MAX,
        old(manager).stack_spec().len() < 0x7fff_ffff,
        old(manager).screen_spec().height_spec() >= 50,
    ensures
        final(manager).wf(),
        ({
            let id = (old(manager).latest_spec() + 1) as u32;
            let w = old(manager).screen_spec().width_spec();
            let h = old(manager).screen_spec().height_spec() - 50;
            let win = final(manager).layers_spec()[id].window_spec();
            &&& r.wf()
            &&& r.layer_spec() == id
            &&& r.fg_spec() == (PixelColor { r: 255, g: 255, b: 255 })
            &&& r.bg_spec() == (PixelColor { r: 45, g: 118, b: 237 })
            &&& r.rows() == h / 16
            &&& r.columns() == w / 8
            &&& r.text() == (TextState { row: 0, column: 0, buffer: Seq::new(((h / 16) * (w / 8)) as nat, |i: int| 0u8) })
            &&& final(manager).latest_spec() == id
            &&& final(manager).layers_spec().dom() == old(manager).layers_spec().dom().insert(id)
            &&& forall|k: u32| k != id && #[trigger] old(manager).layers_spec().contains_key(k)
                ==> final(manager).layers_spec()[k] == old(manager).layers_spec()[k]
            &&& final(manager).layers_spec()[id].pos_spec() == (Vector2D { x: 0i32, y: 0i32 })
            &&& win is Base
            &&& win.base_spec().width_spec() == w
            &&& win.base_spec().height_spec() == h
            &&& forall|x: int, y: int| inside(x, y, w, h) ==> #[trigger] win.base_spec().pixel(x, y) == (PixelColor { r: 45, g: 118, b: 237 })
            &&& final(manager).stack_spec() == raised(old(manager).stack_spec(), id, 1)
            &&& final(manager).screen_spec() == old(manager).screen_spec()
        }),
{
    proof { manager.lemma_screen_dims(); }
    let screen = manager.screen_size();
    let size = Vector2D::new(screen.x, screen.y - 50);
    let format = manager.pixel_format();
    let row_num = size.y as usize / 16;
    let column_num = size.x as usize / 8;
    proof {
        assert(size.x * size.y <= usize::MAX) by (nonlinear_arith)
            requires 0 <= size.x, 0 <= size.y, size.y <= screen.y, screen.x * screen.y <= usize::MAX, size.x == screen.x;
        assert(row_num * column_num <= size.x * size.y) by (nonlinear_arith)
            requires row_num == size.y / 16, column_num == size.x / 8, 0 <= size.x, 0 <= size.y;
    }
    let mut window = Window::new_base(size.x as u32, size.y as u32, format);
    let bg = desktop_bg_color();
    window.fill_rectangle(Vector2D::new(0, 0), size, &bg);
    let id = manager.new_layer(window);
    manager.up_down(id, 1);
    let fg = desktop_fg_color();
    Console::new(id, &fg, &bg, row_num, column_num)
}

/// Where the console's cursor is and what it has written.
pub struct TextState {
    pub row: nat,
    pub column: nat,
    pub buffer: Seq<u8>,
}

/// The console state after character `c` on a `rows` by `columns` grid: a
/// newline goes to the start of the next line (staying on the last one,
/// whose contents then scroll up on screen); another character is stored
/// and the cursor moves right, unless the cursor is on the last column,
/// where the character is dropped.
pub open spec fn text_step(rows: nat, columns: nat, st: TextState, c: u8) -> TextState {
    if c == 10 {
        TextState { row: if st.row + 1 < rows { st.row + 1 } else { st.row }, column: 0, buffer: st.buffer }
    } else if st.column + 1 < columns {
        TextState {
            row: st.row,
            column: st.column + 1,
            buffer: st.buffer.update((st.row * columns + st.column) as int, c),
        }
    } else {
        st
    }
}

/// The console state after the characters of `s`, first to last.
pub open spec fn text_run(rows: nat, columns: nat, st: TextState, s: Seq<u8>) -> TextState
    decreases s.len(),
{
    if s.len() == 0 {
        st
    } else {
        text_step(rows, columns, text_run(rows, columns, st, s.drop_last()), s.last())
    }
}

/// The color at (`x`, `y`) of the console's window once line `row` was
/// broken over pixels `under`: the cursor only moves down, except on the
/// last line, where the grid's lines scroll up one and the last line is
/// painted `bg`.
pub open spec fn broken_line_pixel(under: spec_fn(int, int) -> PixelColor, rows: nat, columns: nat, row: nat, bg: PixelColor, x: int, y: int) -> PixelColor {
    if row + 1 < rows {
        under(x, y)
    } else if in_rect(x, y, Vector2D { x: 0i32, y: (16 * (rows - 1)) as i32 }, Vector2D { x: (8 * columns) as i32, y: 16i32 }) {
        bg
    } else if in_rect(x, y, Vector2D { x: 0i32, y: 0i32 }, Vector2D { x: (8 * columns) as i32, y: (16 * (rows - 1)) as i32 }) {
        under(x, y + 16)
    } else {
        under(x, y)
    }
}

/// The color at (`x`, `y`) of the console's window, whose pixels were
/// `base`, after `s` was written from state `st`: each character kept by
/// `text_step` is drawn in `fg` in its cell (column times 8, row times 16),
/// and each line break acts as `broken_line_pixel` says.
pub open spec fn console_pixel(base: spec_fn(int, int) -> PixelColor, font: BitmapFont, rows: nat, columns: nat, st: TextState,
    fg: PixelColor, bg: PixelColor, s: Seq<u8>, x: int, y: int) -> PixelColor
    decreases s.len(),
{
    if s.len() == 0 {
        base(x, y)
    } else {
        let prev = s.drop_last();
        let p = text_run(rows, columns, st, prev);
        let c = s.last();
        if c == 10 {
            broken_line_pixel(|x1: int, y1: int| console_pixel(base, font, rows, columns, st, fg, bg, prev, x1, y1), rows, columns, p.row, bg, x, y)
        } else if p.column + 1 < columns
            && in_rect(x, y, Vector2D { x: (8 * p.column) as i32, y: (16 * p.row) as i32 }, Vector2D { x: 8i32, y: 16i32 })
            && glyph_bit(font.row_of(c, y - 16 * p.row), x - 8 * p.column) {
            fg
        } else {
            console_pixel(base, font, rows, columns, st, fg, bg, prev, x, y)
        }
    }
}

/// The console: the layer it draws in, its colors, its character grid and
/// cursor.
pub struct Console {
    layer_id: u32,
    fg_color: PixelColor,
    bg_color: PixelColor,
    buffer: Vec<u8>,
    cursor_row: usize,
    cursor_column: usize,
    row_num: usize,
    column_num: usize,
}

impl Console {
    pub closed spec fn layer_spec(&self) -> u32 {
        self.layer_id
    }

    pub closed spec fn fg_spec(&self) -> PixelColor {
        self.fg_color
    }

    pub closed spec fn bg_spec(&self) -> PixelColor {
        self.bg_color
    }

    pub closed spec fn rows(&self) -> nat {
        self.row_num as nat
    }

    pub closed spec fn columns(&self) -> nat {
        self.column_num as nat
    }

    /// The cursor and the characters written.
    pub closed spec fn text(&self) -> TextState {
        TextState { row: self.cursor_row as nat, column: self.cursor_column as nat, buffer: self.buffer@ }
    }

    /// The grid holds `rows * columns` characters, and the cursor lies on
    /// it (at the origin of a grid without a line or a column).
    pub closed spec fn wf(&self) -> bool {
        &&& self.buffer@.len() == self.row_num * self.column_num
        &&& self.row_num >= 1 && self.column_num >= 1 ==> self.cursor_row < self.row_num && self.cursor_column < self.column_num
        &&& self.row_num == 0 || self.column_num == 0 ==> self.cursor_row == 0 && self.cursor_column == 0
    }

    /// Whether layer `layer_id` of `manager` is a bare window large enough
    /// for the grid.
    pub open spec fn fits(&self, manager: LayerManager) -> bool {
        let w = manager.layers_spec()[self.layer_spec()].window_spec();
        &&& manager.layers_spec().contains_key(self.layer_spec())
        &&& w is Base
        &&& 8 * self.columns() <= w.base_spec().width_spec()
        &&& 16 * self.rows() <= w.base_spec().height_spec()
    }

    /// A console at the top left of an empty `row_num` by `column_num`
    /// grid drawn in layer `layer_id`.
    pub fn new(layer_id: u32, fg_color: &PixelColor, bg_color: &PixelColor, row_num: usize, column_num: usize) -> (r: Self)
        requires
            row_num * column_num <= usize::MAX,
        ensures
            r.wf(),
            r.layer_spec() == layer_id,
            r.fg_spec() == *fg_color,
            r.bg_spec() == *bg_color,
            r.rows() == row_num,
            r.columns() == column_num,
            r.text() == (TextState { row: 0, column: 0, buffer: Seq::new((row_num * column_num) as nat, |i: int| 0u8) }),
    {
        let n = row_num * column_num;
        let mut buffer: Vec<u8> = Vec::new();
        let mut i: usize = 0;
        while i < n
            invariant
                i <= n,
                buffer@.len() == i,
                forall|k: int| 0 <= k < i ==> buffer@[k] == 0u8,
            decreases n - i,
        {
            buffer.push(0);
            i = i + 1;
        }
        let r = Console {
            layer_id,
            fg_color: *fg_color,
            bg_color: *bg_color,
            buffer,
            cursor_row: 0,
            cursor_column: 0,
            row_num,
            column_num,
        };
        assert(r.text().buffer =~= Seq::new((row_num * column_num) as nat, |i: int| 0u8));
        r
    }

    pub fn column_num(&self) -> (r: usize)
        ensures
            r == self.columns(),
    {
        self.column_num
    }

    pub fn row_num(&self) -> (r: usize)
        ensures
            r == self.rows(),
    {
        self.row_num
    }

    /// Whether the cursor is at the start of a line.
    pub fn is_head(&self) -> (r: bool)
        ensures
            r == (self.text().column == 0),
    {
        self.cursor_column == 0
    }

    /// Moves the cursor to the start of the next line; on the last line the
    /// window's lines scroll up one and the last line is cleared to the
    /// background color instead.
    fn new_line(&mut self, window: &mut Window)
        requires
            old(self).wf(),
            old(self).rows() >= 1,
            old(self).columns() >= 1,
            old(window).wf(),
            *old(window) is Base,
            8 * old(self).columns() <= old(window).base_spec().width_spec(),
            16 * old(self).rows() <= old(window).base_spec().height_spec(),
            old(window).base_spec().width_spec() <= CANVAS,
            old(window).base_spec().height_spec() <= CANVAS,
        ensures
            final(self).wf(),
            final(self).text() == text_step(old(self).rows(), old(self).columns(), old(self).text(), 10u8),
            final(self).rows() == old(self).rows(),
            final(self).columns() == old(self).columns(),
            final(self).layer_spec() == old(self).layer_spec(),
            final(self).fg_spec() == old(self).fg_spec(),
            final(self).bg_spec() == old(self).bg_spec(),
            final(window).wf(),
            *final(window) is Base,
            final(window).base_spec().width_spec() == old(window).base_spec().width_spec(),
            final(window).base_spec().height_spec() == old(window).base_spec().height_spec(),
            final(window).base_spec().format_spec() == old(window).base_spec().format_spec(),
            final(window).base_spec().transparent_spec() == old(window).base_spec().transparent_spec(),
            forall|x: int, y: int| inside(x, y, old(window).base_spec().width_spec(), old(window).base_spec().height_spec())
                ==> #[trigger] final(window).base_spec().pixel(x, y) == broken_line_pixel(|x1: int, y1: int| old(window).base_spec().pixel(x1, y1),
                    old(self).rows(), old(self).columns(), old(self).text().row, old(self).bg_spec(), x, y),
    {
        self.cursor_column = 0;
        if self.cursor_row < self.row_num - 1 {
            self.cursor_row = self.cursor_row + 1;
            return;
        }
        let cols = self.column_num as i32;
        let rows = self.row_num as i32;
        let mov_src = Rectangle { pos: Vector2D::new(0, 16), size: Vector2D::new(8 * cols, 16 * (rows - 1)) };
        window.move_area(Vector2D::new(0, 0), &mov_src);
        window.fill_rectangle(Vector2D::new(0, 16 * (rows - 1)), Vector2D::new(8 * cols, 16), &self.bg_color);
    }

    /// Writes the characters of `s` at the cursor as `text_run` says,
    /// drawing them in the console's window, then redraws the console's
    /// layer and those above it.
    pub fn put_string(&mut self, manager: &mut LayerManager, s: &[u8], font: &BitmapFont)
        requires
            old(self).wf(),
            old(manager).wf(),
            font.wf(),
            old(self).fits(*old(manager)),
            s@.len() == 0 || (old(self).rows() >= 1 && old(self).columns() >= 1),
        ensures
            final(self).wf(),
            final(self).text() == text_run(old(self).rows(), old(self).columns(), old(self).text(), s@),
            final(self).rows() == old(self).rows(),
            final(self).columns() == old(self).columns(),
            final(self).layer_spec() == old(self).layer_spec(),
            final(self).fg_spec() == old(self).fg_spec(),
            final(self).bg_spec() == old(self).bg_spec(),
            final(manager).wf(),
            final(self).fits(*final(manager)),
            final(manager).layers_spec().dom() == old(manager).layers_spec().dom(),
            forall|k: u32| #[trigger] old(manager).layers_spec().contains_key(k) && k != old(self).layer_spec()
                ==> final(manager).layers_spec()[k] == old(manager).layers_spec()[k],
            final(manager).layers_spec()[old(self).layer_spec()].pos_spec() == old(manager).layers_spec()[old(self).layer_spec()].pos_spec(),
            final(manager).stack_spec() == old(manager).stack_spec(),
            final(manager).latest_spec() == old(manager).latest_spec(),
            final(manager).mouse_spec() == old(manager).mouse_spec(),
            final(manager).active_spec() == old(manager).active_spec(),
            ({
                let w0 = old(manager).layers_spec()[old(self).layer_spec()].window_spec().base_spec();
                let w1 = final(manager).layers_spec()[old(self).layer_spec()].window_spec().base_spec();
                &&& w1.width_spec() == w0.width_spec()
                &&& w1.height_spec() == w0.height_spec()
                &&& forall|x: int, y: int| inside(x, y, w0.width_spec(), w0.height_spec()) ==> #[trigger] w1.pixel(x, y)
                    == console_pixel(|x1: int, y1: int| w0.pixel(x1, y1), *font, old(self).rows(), old(self).columns(), old(self).text(),
                        old(self).fg_spec(), old(self).bg_spec(), s@, x, y)
            }),
            exists|mid: LayerManager| #![trigger mid.drew_from(*final(manager), old(self).layer_spec(), whole())]
                mid.screen_spec() == old(manager).screen_spec() && mid.back_spec() == old(manager).back_spec()
                && mid.drew_from(*final(manager), old(self).layer_spec(), whole()),
    {
        let id = self.layer_id;
        proof { old(manager).lemma_layer_ok(id); }
        let ghost w0 = old(manager).layers_spec()[id].window_spec().base_spec();
        let ghost base = |x1: int, y1: int| w0.pixel(x1, y1);
        let mut window = take_window(manager, id);
        proof {
            window.base_spec().lemma_dims();
        }
        let mut i: usize = 0;
        while i < s.len()
            invariant
                self.wf(),
                font.wf(),
                window.wf(),
                window is Base,
                self.layer_spec() == id,
                self.rows() == old(self).rows(),
                self.columns() == old(self).columns(),
                self.fg_spec() == old(self).fg_spec(),
                self.bg_spec() == old(self).bg_spec(),
                8 * self.columns() <= window.base_spec().width_spec() <= CANVAS,
                16 * self.rows() <= window.base_spec().height_spec() <= CANVAS,
                window.base_spec().width_spec() == old(manager).layers_spec()[id].window_spec().base_spec().width_spec(),
                window.base_spec().height_spec() == old(manager).layers_spec()[id].window_spec().base_spec().height_spec(),
                window.base_spec().format_spec() == old(manager).layers_spec()[id].window_spec().base_spec().format_spec(),
                window.base_spec().transparent_spec() == old(manager).layers_spec()[id].window_spec().base_spec().transparent_spec(),
                i <= s@.len(),
                self.text() == text_run(old(self).rows(), old(self).columns(), old(self).text(), s@.take(i as int)),
                s@.len() == 0 || (self.rows() >= 1 && self.columns() >= 1),
                w0 == old(manager).layers_spec()[id].window_spec().base_spec(),
                base == (|x1: int, y1: int| w0.pixel(x1, y1)),
                forall|x: int, y: int| inside(x, y, w0.width_spec(), w0.height_spec()) ==> #[trigger] window.base_spec().pixel(x, y)
                    == console_pixel(base, *font, old(self).rows(), old(self).columns(), old(self).text(), old(self).fg_spec(), old(self).bg_spec(), s@.take(i as int), x, y),
            decreases s@.len() - i,
        {
            let c = s[i];
            let ghost prev = s@.take(i as int);
            let ghost wb = window.base_spec();
            let ghost p = self.text();
            proof {
                assert(s@.take(i + 1).drop_last() =~= s@.take(i as int));
                assert(s@.take(i + 1).last() == c);
            }
            if c == 10 {
                self.new_line(&mut window);
                proof {
                    assert forall|x: int, y: int| inside(x, y, w0.width_spec(), w0.height_spec()) implies #[trigger] window.base_spec().pixel(x, y)
                        == console_pixel(base, *font, old(self).rows(), old(self).columns(), old(self).text(), old(self).fg_spec(), old(self).bg_spec(), s@.take(i + 1), x, y) by {
                        let t = s@.take(i + 1);
                        assert(t.drop_last() == prev && t.last() == 10);
                        assert(wb.pixel(x, y) == console_pixel(base, *font, old(self).rows(), old(self).columns(), old(self).text(), old(self).fg_spec(), old(self).bg_spec(), prev, x, y));
                        if p.row + 1 >= self.rows() && in_rect(x, y, Vector2D { x: 0i32, y: 0i32 }, Vector2D { x: (8 * self.columns()) as i32, y: (16 * (self.rows() - 1)) as i32 }) {
                            assert(inside(x, y + 16, w0.width_spec(), w0.height_spec()));
                            assert(wb.pixel(x, y + 16) == console_pixel(base, *font, old(self).rows(), old(self).columns(), old(self).text(), old(self).fg_spec(), old(self).bg_spec(), prev, x, y + 16));
                        }
                    }
                }
            } else if self.cursor_column < self.column_num - 1 {
                let row = self.cursor_row;
                let col = self.cursor_column;
                proof {
                    assert(col * 8 + 8 <= 8 * self.columns()) by (nonlinear_arith)
                        requires col + 1 <= self.columns();
                    assert(row * 16 + 16 <= 16 * self.rows()) by (nonlinear_arith)
                        requires row + 1 <= self.rows();
                    assert(row * self.column_num + col < self.row_num * self.column_num) by (nonlinear_arith)
                        requires row + 1 <= self.row_num, col < self.column_num;
                    assert(self.buffer@.len() == self.buffer.len());
                    assert(row * self.column_num <= row * self.column_num + col);
                }
                let pos = Vector2D::new(8 * col as i32, 16 * row as i32);
                window.write_ascii(pos, c, &self.fg_color, font);
                self.buffer.set(row * self.column_num + col, c);
                self.cursor_column = col + 1;
                proof {
                    assert forall|x: int, y: int| inside(x, y, w0.width_spec(), w0.height_spec()) implies #[trigger] window.base_spec().pixel(x, y)
                        == console_pixel(base, *font, old(self).rows(), old(self).columns(), old(self).text(), old(self).fg_spec(), old(self).bg_spec(), s@.take(i + 1), x, y) by {
                        let t = s@.take(i + 1);
                        assert(t.drop_last() == prev && t.last() == c);
                        assert(wb.pixel(x, y) == console_pixel(base, *font, old(self).rows(), old(self).columns(), old(self).text(), old(self).fg_spec(), old(self).bg_spec(), prev, x, y));
                    }
                }
            } else {
                proof {
                    assert forall|x: int, y: int| inside(x, y, w0.width_spec(), w0.height_spec()) implies #[trigger] window.base_spec().pixel(x, y)
                        == console_pixel(base, *font, old(self).rows(), old(self).columns(), old(self).text(), old(self).fg_spec(), old(self).bg_spec(), s@.take(i + 1), x, y) by {
                        let t = s@.take(i + 1);
                        assert(t.drop_last() == prev && t.last() == c);
                    }
                }
            }
            i = i + 1;
        }
        proof {
            assert(s@.take(s@.len() as int) =~= s@);
        }
        put_window(manager, id, window);
        proof {
            assert(manager.layers_spec()[id].window_spec() is Base);
        }
        let ghost mid = *manager;
        manager.draw_id(id);
        proof {
            assert(mid.drew_from(*manager, id, whole()));
        }
    }
}

/// Takes the window of layer `id` out of `manager`, leaving an empty bare
/// window of the screen's format in its place.
fn take_window(manager: &mut LayerManager, id: u32) -> (r: Window)
    requires
        old(manager).wf(),
        old(manager).layers_spec().contains_key(id),
    ensures
        r == old(manager).layers_spec()[id].window_spec(),
        final(manager).wf(),
        final(manager).layers_spec().dom() == old(manager).layers_spec().dom(),
        forall|k: u32| #[trigger] old(manager).layers_spec().contains_key(k) && k != id
            ==> final(manager).layers_spec()[k] == old(manager).layers_spec()[k],
        final(manager).layers_spec()[id].pos_spec() == old(manager).layers_spec()[id].pos_spec(),
        final(manager).layers_spec()[id].draggable_spec() == old(manager).layers_spec()[id].draggable_spec(),
        final(manager).screen_spec() == old(manager).screen_spec(),
        final(manager).back_spec() == old(manager).back_spec(),
        final(manager).stack_spec() == old(manager).stack_spec(),
        final(manager).latest_spec() == old(manager).latest_spec(),
        final(manager).mouse_spec() == old(manager).mouse_spec(),
        final(manager).active_spec() == old(manager).active_spec(),
{
    let ghost m0 = *manager;
    proof { m0.lemma_layer_ok(id); }
    let fmt = manager.pixel_format();
    let mut w = Window::new_base(0, 0, fmt);
    let ghost placeholder = w;
    let layer = manager.layer(id);
    std::mem::swap(layer.window_mut(), &mut w);
    proof {
        assert(manager.layers_spec()[id].window_spec() == placeholder);
        LayerManager::lemma_replace_layer(&m0, manager, id);
        assert(manager.layers_spec().dom() =~= m0.layers_spec().dom());
    }
    w
}

/// Puts `window` back as the window of layer `id`.
fn put_window(manager: &mut LayerManager, id: u32, window: Window)
    requires
        old(manager).wf(),
        old(manager).layers_spec().contains_key(id),
        window.wf(),
        window.base_spec().format_spec() == old(manager).screen_spec().format_spec(),
        window.base_spec().width_spec() <= CANVAS,
        window.base_spec().height_spec() <= CANVAS,
    ensures
        final(manager).wf(),
        final(manager).layers_spec()[id].window_spec() == window,
        final(manager).layers_spec().dom() == old(manager).layers_spec().dom(),
        forall|k: u32| #[trigger] old(manager).layers_spec().contains_key(k) && k != id
            ==> final(manager).layers_spec()[k] == old(manager).layers_spec()[k],
        final(manager).layers_spec()[id].pos_spec() == old(manager).layers_spec()[id].pos_spec(),
        final(manager).layers_spec()[id].draggable_spec() == old(manager).layers_spec()[id].draggable_spec(),
        final(manager).screen_spec() == old(manager).screen_spec(),
        final(manager).back_spec() == old(manager).back_spec(),
        final(manager).stack_spec() == old(manager).stack_spec(),
        final(manager).latest_spec() == old(manager).latest_spec(),
        final(manager).mouse_spec() == old(manager).mouse_spec(),
        final(manager).active_spec() == old(manager).active_spec(),
{
    let ghost m0 = *manager;
    proof { m0.lemma_layer_ok(id); }
    let mut w = window;
    let layer = manager.layer(id);
    std::mem::swap(layer.window_mut(), &mut w);
    proof {
        assert(manager.layers_spec()[id].window_spec() == window);
        LayerManager::lemma_replace_layer(&m0, manager, id);
        assert(manager.layers_spec().dom() =~= m0.layers_spec().dom());
    }
}

/// `fb` with the pixels from `a` up to `b` set to `v`.
pub open spec fn fill_range(fb: Seq<u32>, a: int, b: int, v: u32) -> Seq<u32> {
    Seq::new(fb.len(), |i: int| if a <= i < b { v } else { fb[i] })
}

/// `fb` with the first `k` pixel rows of text row `row` cleared from
/// column `col` to the end of the scan line.
pub open spec fn clear_lines(fb: Seq<u32>, ppsl: int, row: int, col: int, k: nat) -> Seq<u32>
    decreases k,
{
    if k == 0 {
        fb
    } else {
        let dy = k - 1;
        fill_range(clear_lines(fb, ppsl, row, col, (k - 1) as nat), (row * 16 + dy) * ppsl + col * 8, (row * 16 + dy + 1) * ppsl, 0)
    }
}

/// `fb` with the first `n` pixels of a glyph row `bits` drawn from pixel
/// `start`: white where the bit is set, black elsewhere.
pub open spec fn glyph_row_px(fb: Seq<u32>, start: int, bits: u8, n: int) -> Seq<u32> {
    Seq::new(fb.len(), |i: int| if start <= i < start + n {
        if glyph_bit(bits, i - start) { 0xffff_ffffu32 } else { 0u32 }
    } else {
        fb[i]
    })
}

/// `fb` with the first `k` rows of the glyph of `c` drawn from pixel `base`.
pub open spec fn draw_glyph(fb: Seq<u32>, ppsl: int, base: int, font: &BitmapFont, c: u8, k: nat) -> Seq<u32>
    decreases k,
{
    if k == 0 {
        fb
    } else {
        glyph_row_px(draw_glyph(fb, ppsl, base, font, c, (k - 1) as nat), base + (k - 1) * ppsl, font.row_of(c, k - 1), 8)
    }
}

/// The pixels, row and column after the panic console shows `s` from
/// (`row`, `col`): a newline clears the rest of the text row and moves to
/// the next; another character moves to the next row when the row is
/// full, then draws its glyph and moves right. Nothing more is shown once
/// the rows run out.
pub open spec fn panic_run(fb: Seq<u32>, ppsl: int, cn: int, rn: int, row: int, col: int, font: &BitmapFont, s: Seq<u8>) -> (Seq<u32>, int, int)
    decreases s.len(),
{
    if s.len() == 0 || row == rn {
        (fb, row, col)
    } else if s[0] == 0x0a {
        panic_run(clear_lines(fb, ppsl, row, col, 16), ppsl, cn, rn, row + 1, 0, font, s.drop_first())
    } else {
        let r1 = if col == cn { row + 1 } else { row };
        let c1 = if col == cn { 0 } else { col };
        panic_run(draw_glyph(fb, ppsl, r1 * 16 * ppsl + c1 * 8, font, s[0], 16), ppsl, cn, rn, r1, c1 + 1, font, s.drop_first())
    }
}

/// Whether showing `s` from (`row`, `col`) stays on the screen: a row
/// holds at least one cell and no character moves to a row past the last
/// one.
pub open spec fn panic_fits(cn: int, rn: int, row: int, col: int, s: Seq<u8>) -> bool
    decreases s.len(),
{
    if s.len() == 0 || row == rn {
        true
    } else if s[0] == 0x0a {
        panic_fits(cn, rn, row + 1, 0, s.drop_first())
    } else if cn <= 0 {
        false
    } else if col == cn {
        row + 1 < rn && panic_fits(cn, rn, row + 1, 1, s.drop_first())
    } else {
        panic_fits(cn, rn, row, col + 1, s.drop_first())
    }
}

proof fn lemma_cell_in_screen(row: int, dy: int, x: int, ppsl: int, rn: int)
    requires
        0 <= row < rn,
        0 <= dy < 16,
        0 <= x <= ppsl,
    ensures
        0 <= (row * 16 + dy) * ppsl + x <= (row * 16 + dy + 1) * ppsl,
        (row * 16 + dy + 1) * ppsl <= ppsl * rn * 16,
        (row * 16 + dy) * ppsl == row * 16 * ppsl + dy * ppsl,
{
    assert(0 <= (row * 16 + dy) * ppsl + x <= (row * 16 + dy + 1) * ppsl) by (nonlinear_arith)
        requires 0 <= row, 0 <= dy, 0 <= x <= ppsl;
    assert((row * 16 + dy + 1) * ppsl <= ppsl * rn * 16) by (nonlinear_arith)
        requires row < rn, dy < 16, 0 <= ppsl;
    assert((row * 16 + dy) * ppsl == row * 16 * ppsl + dy * ppsl) by (nonlinear_arith);
}

/// A console for panic messages: it draws straight into the frame buffer,
/// white on black, and shows only what fits on the screen.
pub struct PanicConsole {
    pub row_pos: usize,
    pub col_pos: usize,
    pub col_num: usize,
    pub row_num: usize,
    pub frame_buffer: usize,
    pub pixels_per_scan_line: usize,
}

impl PanicConsole {
    /// The cursor is on the screen, a row of cells fits in a scan line, and
    /// the frame buffer's pixel count fits in `usize`.
    pub open spec fn wf(&self) -> bool {
        &&& self.col_pos <= self.col_num
        &&& self.row_pos <= self.row_num
        &&& self.col_num * 8 <= self.pixels_per_scan_line
        &&& self.row_num * 16 <= usize::MAX
        &&& self.pixels_per_scan_line * self.row_num * 16 <= usize::MAX
    }

    /// How many pixels the console's frame buffer has.
    pub open spec fn fb_len(&self) -> int {
        self.pixels_per_scan_line * self.row_num * 16
    }

    /// A console over the screen of `config`, with the cursor at the top
    /// left: as many 8x16 cells as the resolution holds.
    /// It is well formed when the scan line holds the screen's width and
    /// the frame buffer's pixel count fits in `usize`.
    pub fn new(config: &FrameBufferConfig) -> (r: Self)
        ensures
            config.horizontal_resolution <= config.pixels_per_scan_line
                && config.pixels_per_scan_line * (config.vertical_resolution / 16) * 16 <= usize::MAX ==> r.wf(),
            r == (PanicConsole {
                row_pos: 0,
                col_pos: 0,
                col_num: config.horizontal_resolution / 8,
                row_num: config.vertical_resolution / 16,
                frame_buffer: config.frame_buffer,
                pixels_per_scan_line: config.pixels_per_scan_line,
            }),
    {
        PanicConsole {
            row_pos: 0,
            col_pos: 0,
            col_num: config.horizontal_resolution / 8,
            row_num: config.vertical_resolution / 16,
            frame_buffer: config.frame_buffer,
            pixels_per_scan_line: config.pixels_per_scan_line,
        }
    }

    /// Whether `s` fits on the screen from the cursor (see `panic_fits`).
    pub fn fits(&self, s: &[u8]) -> (r: bool)
        requires
            self.wf(),
        ensures
            r == panic_fits(self.col_num as int, self.row_num as int, self.row_pos as int, self.col_pos as int, s@),
    {
        let mut row = self.row_pos;
        let mut col = self.col_pos;
        let mut i: usize = 0;
        assert(s@.skip(0) =~= s@);
        while i < s.len()
            invariant
                self.wf(),
                i <= s@.len(),
                row <= self.row_num,
                col <= self.col_num,
                panic_fits(self.col_num as int, self.row_num as int, self.row_pos as int, self.col_pos as int, s@)
                    == panic_fits(self.col_num as int, self.row_num as int, row as int, col as int, s@.skip(i as int)),
            decreases s@.len() - i,
        {
            assert(s@.skip(i as int).drop_first() =~= s@.skip(i + 1));
            if row == self.row_num {
                return true;
            }
            if s[i] == 0x0a {
                row = row + 1;
                col = 0;
            } else if self.col_num == 0 {
                return false;
            } else if col == self.col_num {
                if row + 1 >= self.row_num {
                    return false;
                }
                row = row + 1;
                col = 1;
            } else {
                col = col + 1;
            }
            i = i + 1;
        }
        true
    }

    /// Shows the ASCII text `s` in `fb`, the frame buffer's pixels (see
    /// `panic_run`); fails, showing nothing, when `s` is not ASCII.
    pub fn write_str(&mut self, fb: &mut Vec<u32>, s: &[u8], font: &BitmapFont) -> (r: Result<(), ()>)
        requires
            old(self).wf(),
            font.wf(),
            old(fb)@.len() == old(self).fb_len(),
            (forall|k: int| 0 <= k < s@.len() ==> s@[k] < 0x80) ==> panic_fits(
                old(self).col_num as int, old(self).row_num as int, old(self).row_pos as int, old(self).col_pos as int, s@),
        ensures
            r is Err <==> exists|k: int| 0 <= k < s@.len() && s@[k] >= 0x80,
            r is Err ==> *final(self) == *old(self) && final(fb)@ == old(fb)@,
            r is Ok ==> ({
                let res = panic_run(old(fb)@, old(self).pixels_per_scan_line as int, old(self).col_num as int,
                    old(self).row_num as int, old(self).row_pos as int, old(self).col_pos as int, font, s@);
                &&& final(fb)@ == res.0
                &&& *final(self) == (PanicConsole { row_pos: res.1 as usize, col_pos: res.2 as usize, ..*old(self) })
            }),
            final(self).wf(),
    {
        let mut k: usize = 0;
        while k < s.len()
            invariant
                k <= s@.len(),
                forall|j: int| 0 <= j < k ==> s@[j] < 0x80,
                *self == *old(self),
                self.wf(),
                fb@ == old(fb)@,
            decreases s@.len() - k,
        {
            if s[k] >= 0x80 {
                return Err(());
            }
            k = k + 1;
        }
        let ppsl = self.pixels_per_scan_line;
        let cn = self.col_num;
        let rn = self.row_num;
        let ghost target = panic_run(fb@, ppsl as int, cn as int, rn as int, self.row_pos as int, self.col_pos as int, font, s@);
        let mut i: usize = 0;
        assert(s@.skip(0) =~= s@);
        while i < s.len()
            invariant
                self.wf(),
                font.wf(),
                forall|j: int| 0 <= j < s@.len() ==> s@[j] < 0x80,
                self.col_num == old(self).col_num,
                self.row_num == old(self).row_num,
                self.pixels_per_scan_line == old(self).pixels_per_scan_line,
                target == panic_run(old(fb)@, ppsl as int, cn as int, rn as int, old(self).row_pos as int, old(self).col_pos as int, font, s@),
                ppsl == self.pixels_per_scan_line,
                cn == self.col_num,
                rn == self.row_num,
                self.frame_buffer == old(self).frame_buffer,
                fb@.len() == self.fb_len(),
                i <= s@.len(),
                panic_fits(cn as int, rn as int, self.row_pos as int, self.col_pos as int, s@.skip(i as int)),
                target == panic_run(fb@, ppsl as int, cn as int, rn as int, self.row_pos as int, self.col_pos as int, font, s@.skip(i as int)),
            decreases s@.len() - i,
        {
            assert(s@.skip(i as int).drop_first() =~= s@.skip(i + 1));
            assert(s@.skip(i as int)[0] == s@[i as int]);
            if self.row_pos == rn {
                assert(target == (fb@, self.row_pos as int, self.col_pos as int));
                return Ok(());
            }
            let c = s[i];
            if c == 0x0a {
                let row = self.row_pos;
                let col = self.col_pos;
                let ghost fb0 = fb@;
                let mut dy: usize = 0;
                while dy < 16
                    invariant
                        dy <= 16,
                        row < rn,
                        col <= cn,
                        cn * 8 <= ppsl,
                        rn * 16 <= usize::MAX,
                        fb@.len() == ppsl * rn * 16,
                        ppsl * rn * 16 <= usize::MAX,
                        fb@ == clear_lines(fb0, ppsl as int, row as int, col as int, dy as nat),
                    decreases 16 - dy,
                {
                    proof { lemma_cell_in_screen(row as int, dy as int, col * 8, ppsl as int, rn as int); }
                    let head = (row * 16 + dy) * ppsl + col * 8;
                    let end = (row * 16 + dy + 1) * ppsl;
                    let ghost prev = fb@;
                    assert(fb@ =~= fill_range(prev, head as int, head as int, 0));
                    let mut j = head;
                    while j < end
                        invariant
                            head <= j <= end,
                            end <= fb@.len(),
                            prev.len() <= usize::MAX,
                            fb@.len() == prev.len(),
                            fb@ == fill_range(prev, head as int, j as int, 0),
                        decreases end - j,
                    {
                        fb.set(j, 0);
                        j = j + 1;
                        assert(fb@ =~= fill_range(prev, head as int, j as int, 0));
                    }
                    dy = dy + 1;
                }
                self.col_pos = 0;
                self.row_pos = self.row_pos + 1;
            } else {
                if self.col_pos == cn {
                    self.col_pos = 0;
                    self.row_pos = self.row_pos + 1;
                }
                let r1 = self.row_pos;
                let c1 = self.col_pos;
                proof { lemma_cell_in_screen(r1 as int, 0, c1 * 8, ppsl as int, rn as int); }
                let base = r1 * 16 * ppsl + c1 * 8;
                let glyph = font.get_font(c);
                let ghost fb0 = fb@;
                let mut dy: usize = 0;
                while dy < 16
                    invariant
                        dy <= 16,
                        r1 < rn,
                        c1 < cn,
                        cn * 8 <= ppsl,
                        base == r1 * 16 * ppsl + c1 * 8,
                        fb@.len() == ppsl * rn * 16,
                        ppsl * rn * 16 <= usize::MAX,
                        forall|row: int| 0 <= row < 16 ==> #[trigger] glyph[row] == font.row_of(c, row),
                        fb@ == draw_glyph(fb0, ppsl as int, base as int, font, c, dy as nat),
                    decreases 16 - dy,
                {
                    proof { lemma_cell_in_screen(r1 as int, dy as int, c1 * 8 + 8, ppsl as int, rn as int); }
                    let start = base + dy * ppsl;
                    let bits = glyph[dy];
                    let ghost prev = fb@;
                    assert(fb@ =~= glyph_row_px(prev, start as int, bits, 0));
                    let mut dx: usize = 0;
                    while dx < 8
                        invariant
                            dx <= 8,
                            start + 8 <= fb@.len(),
                            prev.len() <= usize::MAX,
                            fb@.len() == prev.len(),
                            fb@ == glyph_row_px(prev, start as int, bits, dx as int),
                        decreases 8 - dx,
                    {
                        let v: u32 = if (bits >> ((7 - dx) as u8)) & 1 == 1 { 0xffff_ffff } else { 0 };
                        fb.set(start + dx, v);
                        dx = dx + 1;
                        assert(fb@ =~= glyph_row_px(prev, start as int, bits, dx as int));
                    }
                    dy = dy + 1;
                }
                self.col_pos = self.col_pos + 1;
            }
            i = i + 1;
        }
        Ok(())
    }
}

} // verus!
