//! The terminal: a line editor with a command history, drawn as a grid of
//! characters in a top-level window, and the splitting of a command line
//! into words.
use vstd::prelude::*;
use std::collections::VecDeque;
use crate::bytes::{put64, write_u64};
use crate::error::Code;
use crate::font::{glyph_bit, BitmapFont};
use crate::frame_buffer::{in_rect, inside};
use crate::graphics::{PixelColor, Rectangle, Vector2D};
use crate::layer::CANVAS;
use crate::message::{layer_message, LayerOperation, Message, MessageType};
use crate::timer::{Timer, TIMER_FREQ};
use crate::window::Window;

verus! {

/// Lines of the terminal.
pub const ROWS: usize = 15;
/// Columns of the terminal.
pub const COLUMNS: usize = 60;
/// Room for a command line.
pub const LINE_MAX: usize = 128;
/// Commands kept in the history.
pub const HISTORY_LEN: usize = 8;
/// Where an application's stack ends.
pub const APP_STACK_ADDR: u64 = 0xffff_ffff_ffff_e000;

/// The cursor after a line break: the start of the next line, or of the
/// last line when the terminal scrolls.
pub open spec fn newline(c: Vector2D<i32>) -> Vector2D<i32> {
    if c.y < ROWS - 1 { Vector2D { x: 0, y: (c.y + 1) as i32 } } else { Vector2D { x: 0, y: c.y } }
}

/// The cursor after printing `s` from `c`: a newline breaks the line, any
/// other character is put at the cursor after a break when the line is
/// full.
pub open spec fn printed(c: Vector2D<i32>, s: Seq<u8>) -> Vector2D<i32>
    decreases s.len(),
{
    if s.len() == 0 {
        c
    } else {
        let p = printed(c, s.drop_last());
        if s.last() == 10 {
            newline(p)
        } else {
            let q = if p.x == COLUMNS { newline(p) } else { p };
            Vector2D { x: (q.x + 1) as i32, y: q.y }
        }
    }
}

/// Whether `c` is a cursor position the terminal can be at.
pub open spec fn cursor_ok(c: Vector2D<i32>) -> bool {
    0 <= c.x <= COLUMNS && 0 <= c.y < ROWS
}

/// The color at (`x`, `y`) of window `w` after the terminal scrolled with
/// its cursor on line `cy`: the text area (60 by 14 characters from (4, 4))
/// shows what was one line lower, and the cursor's line of the drawing area
/// is cleared to black.
pub open spec fn scrolled_pixel(w: Window, cy: int, x: int, y: int) -> PixelColor {
    if in_rect(x - w.offset().x, y - w.offset().y, Vector2D { x: 4i32, y: (4 + 16 * cy) as i32 }, Vector2D { x: 480i32, y: 16i32 }) {
        PixelColor { r: 0, g: 0, b: 0 }
    } else if in_rect(x, y, Vector2D { x: 4i32, y: 4i32 }, Vector2D { x: 480i32, y: 224i32 }) {
        w.base_spec().pixel(x, y + 16)
    } else {
        w.base_spec().pixel(x, y)
    }
}

/// Black and white.
pub open spec fn black() -> PixelColor {
    PixelColor { r: 0, g: 0, b: 0 }
}

pub open spec fn white() -> PixelColor {
    PixelColor { r: 0xff, g: 0xff, b: 0xff }
}

/// The color at (`x`, `y`) of a terminal window (drawing area from
/// (4, 24)) once the cursor block at `c` was painted `color` over `under`.
pub open spec fn cursor_block_pixel(c: Vector2D<i32>, color: PixelColor, under: PixelColor, x: int, y: int) -> PixelColor {
    if in_rect(x - 4, y - 24, Vector2D { x: (4 + 8 * c.x) as i32, y: (5 + 16 * c.y) as i32 }, Vector2D { x: 7i32, y: 15i32 }) {
        color
    } else {
        under
    }
}

/// The color at (`x`, `y`) of a terminal window once character `ch` of
/// `font` was drawn in white in the cell of cursor `q` over `under`.
pub open spec fn cell_pixel(ch: u8, font: BitmapFont, q: Vector2D<i32>, under: PixelColor, x: int, y: int) -> PixelColor {
    let pos = Vector2D { x: (4 + 8 * q.x) as i32, y: (4 + 16 * q.y) as i32 };
    if in_rect(x - 4, y - 24, pos, Vector2D { x: 8i32, y: 16i32 }) && glyph_bit(font.row_of(ch, y - 24 - pos.y), x - 4 - pos.x) {
        white()
    } else {
        under
    }
}

/// The color at (`x`, `y`) of a terminal window whose pixels were `base`,
/// after `s` was printed from cursor `c`: each character is drawn in its
/// cell (after a line break when the line is full), and a line break on
/// the last line scrolls the text area up by a line and clears the last
/// line (see `scrolled_pixel`).
pub open spec fn print_pixel(base: spec_fn(int, int) -> PixelColor, font: BitmapFont, c: Vector2D<i32>, s: Seq<u8>, x: int, y: int) -> PixelColor
    decreases s.len(), 0int,
{
    if s.len() == 0 {
        base(x, y)
    } else {
        let prev = s.drop_last();
        let p = printed(c, prev);
        let ch = s.last();
        if ch == 10 {
            broken_pixel(base, font, c, prev, x, y)
        } else if p.x == COLUMNS {
            cell_pixel(ch, font, newline(p), broken_pixel(base, font, c, prev, x, y), x, y)
        } else {
            cell_pixel(ch, font, p, print_pixel(base, font, c, prev, x, y), x, y)
        }
    }
}

/// The color at (`x`, `y`) after `s` was printed from cursor `c` (see
/// `print_pixel`) and the line was then broken.
pub open spec fn broken_pixel(base: spec_fn(int, int) -> PixelColor, font: BitmapFont, c: Vector2D<i32>, s: Seq<u8>, x: int, y: int) -> PixelColor
    decreases s.len(), 1int,
{
    let p = printed(c, s);
    if p.y < ROWS - 1 {
        print_pixel(base, font, c, s, x, y)
    } else if in_rect(x - 4, y - 24, Vector2D { x: 4i32, y: (4 + 16 * p.y) as i32 }, Vector2D { x: 480i32, y: 16i32 }) {
        black()
    } else if in_rect(x, y, Vector2D { x: 4i32, y: 4i32 }, Vector2D { x: 480i32, y: 224i32 }) {
        print_pixel(base, font, c, s, x, y + 16)
    } else {
        print_pixel(base, font, c, s, x, y)
    }
}

/// The pixels of `w` once the cursor block at `c` was hidden.
pub open spec fn hidden_base(w: Window, c: Vector2D<i32>) -> spec_fn(int, int) -> PixelColor {
    |x: int, y: int| cursor_block_pixel(c, black(), w.base_spec().pixel(x, y), x, y)
}

/// Whether putting `ch` with the cursor at `p` breaks the line first: a
/// newline always does; an ASCII character when the line is full; any other
/// character, two cells wide, when fewer than two cells are left.
pub open spec fn breaks_before(p: Vector2D<i32>, ch: char) -> bool {
    if ch == '\n' {
        true
    } else if (ch as u32) < 0x80 {
        p.x == COLUMNS
    } else {
        p.x >= COLUMNS - 1
    }
}

/// The cell `ch` is put in when the cursor is at `p` (after a line break
/// when one comes first).
pub open spec fn char_cell(p: Vector2D<i32>, ch: char) -> Vector2D<i32> {
    if breaks_before(p, ch) { newline(p) } else { p }
}

/// The cursor after putting `ch` at `p`: past its one or two cells, or at
/// the start of the next line for a newline.
pub open spec fn char_step(p: Vector2D<i32>, ch: char) -> Vector2D<i32> {
    let q = char_cell(p, ch);
    if ch == '\n' {
        q
    } else if (ch as u32) < 0x80 {
        Vector2D { x: (q.x + 1) as i32, y: q.y }
    } else {
        Vector2D { x: (q.x + 2) as i32, y: q.y }
    }
}

/// The color at (`x`, `y`) of terminal window `w` after `ch` was put with
/// the cursor at `p`: the line break (with a scroll on the last line) and,
/// for an ASCII character, its glyph in its cell. Other characters are
/// drawn by whoever rasterises them.
pub open spec fn put_char_pixel(w: Window, font: BitmapFont, p: Vector2D<i32>, ch: char, x: int, y: int) -> PixelColor {
    let under = if breaks_before(p, ch) && p.y >= ROWS - 1 {
        scrolled_pixel(w, p.y as int, x, y)
    } else {
        w.base_spec().pixel(x, y)
    };
    if ch != '\n' && (ch as u32) < 0x80 {
        cell_pixel((ch as u32) as u8, font, char_cell(p, ch), under, x, y)
    } else {
        under
    }
}

/// Putting an ASCII character moves the cursor as printing it does: the
/// layout of `put_char` agrees with that of `print` on ASCII text.
pub proof fn lemma_put_char_agrees_with_print(p: Vector2D<i32>, b: u8)
    requires
        b < 0x80,
    ensures
        char_step(p, b as char) == printed(p, seq![b]),
{
    let s = seq![b];
    assert(s.drop_last() =~= Seq::<u8>::empty());
    assert(s.last() == b);
    assert(((b as char) == '\n') == (b == 10)) by {
        assert(('\n' as u32) == 10);
    }
    reveal_with_fuel(printed, 2);
}

/// Whether `w` is a top-level window large enough for the terminal.
pub open spec fn window_fits(w: Window) -> bool {
    &&& w.wf()
    &&& w is Toplevel
    &&& 8 * COLUMNS + 16 <= w.base_spec().width_spec() <= CANVAS
    &&& 16 * ROWS + 36 <= w.base_spec().height_spec() <= CANVAS
}

/// Where the character at cursor `c` is drawn in the drawing area.
pub open spec fn cursor_pos(c: Vector2D<i32>) -> Vector2D<int> {
    Vector2D { x: 4 + 8 * c.x, y: 4 + 16 * c.y }
}

/// The words of `s`: its runs of non-space bytes, in order.
pub open spec fn words(s: Seq<u8>) -> Seq<Seq<u8>>
    decreases s.len(),
{
    if s.len() == 0 {
        Seq::empty()
    } else {
        let w = words(s.drop_last());
        if s.last() == 0x20 {
            w
        } else if s.len() >= 2 && s[s.len() - 2] != 0x20 {
            w.update(w.len() - 1, w.last().push(s.last()))
        } else {
            w.push(seq![s.last()])
        }
    }
}

proof fn lemma_words_nonempty(s: Seq<u8>)
    ensures
        s.len() > 0 && s.last() != 0x20 ==> words(s).len() > 0,
        s.len() > 0 && s.last() != 0x20 && words(s).len() > 0 ==> words(s).last().len() > 0,
    decreases s.len(),
{
    if s.len() > 0 {
        lemma_words_nonempty(s.drop_last());
        if s.len() >= 2 && s[s.len() - 2] != 0x20 {
            assert(s.drop_last().last() == s[s.len() - 2]);
        }
    }
}

/// Splits a command line at its spaces into its non-empty words.
pub fn split_words(line: &[u8]) -> (r: Vec<Vec<u8>>)
    ensures
        r@.len() == words(line@).len(),
        forall|i: int| 0 <= i < r@.len() ==> #[trigger] r@[i]@ == words(line@)[i],
{
    let mut r: Vec<Vec<u8>> = Vec::new();
    let mut i: usize = 0;
    let n = line.len();
    while i < n
        invariant
            n == line@.len(),
            i <= n,
            r@.len() == words(line@.take(i as int)).len(),
            forall|k: int| 0 <= k < r@.len() ==> #[trigger] r@[k]@ == words(line@.take(i as int))[k],
        decreases n - i,
    {
        let c = line[i];
        let ghost t = line@.take(i + 1);
        proof {
            assert(t.drop_last() =~= line@.take(i as int));
            assert(t.last() == c);
            if i >= 1 {
                assert(t[t.len() - 2] == line@[i - 1]);
            }
            lemma_words_nonempty(line@.take(i as int));
        }
        if c != 0x20 {
            if i >= 1 && line[i - 1] != 0x20 {
                let last = r.len() - 1;
                let mut w: Vec<u8> = Vec::new();
                r.set_and_swap(last, &mut w);
                w.push(c);
                r.set_and_swap(last, &mut w);
            } else {
                let mut w: Vec<u8> = Vec::new();
                w.push(c);
                r.push(w);
                proof {
                    assert(r@.last()@ =~= seq![c]);
                }
            }
        }
        i = i + 1;
        proof {
            assert forall|k: int| 0 <= k < r@.len() implies #[trigger] r@[k]@ == words(line@.take(i as int))[k] by {
            }
        }
    }
    proof {
        assert(line@.take(n as int) =~= line@);
    }
    r
}

/// What a key does: a region of the window to redraw, or a command line
/// to carry out (the caller then calls `finish_command`).
pub enum KeyResult {
    Draw(Rectangle<i32>),
    Execute(Vec<u8>),
}

/// The terminal's state: its layer and task, whether it shows a window,
/// its cursor, the line being typed and the command history (most recent
/// first).
pub struct Terminal {
    layer_id: u32,
    task_id: u64,
    has_window: bool,
    cursor: Vector2D<i32>,
    cursor_visible: bool,
    linebuf_index: usize,
    linebuf: Vec<u8>,
    cmd_history: VecDeque<Vec<u8>>,
    cmd_history_index: i32,
}

impl Terminal {
    pub closed spec fn layer_spec(&self) -> u32 {
        self.layer_id
    }

    pub closed spec fn task_spec(&self) -> u64 {
        self.task_id
    }

    pub closed spec fn has_window_spec(&self) -> bool {
        self.has_window
    }

    pub closed spec fn cursor_spec(&self) -> Vector2D<i32> {
        self.cursor
    }

    pub closed spec fn cursor_visible_spec(&self) -> bool {
        self.cursor_visible
    }

    /// The line typed so far.
    pub closed spec fn line(&self) -> Seq<u8> {
        self.linebuf@.subrange(0, self.linebuf_index as int)
    }

    /// The commands kept, most recent first.
    pub closed spec fn history(&self) -> Seq<Seq<u8>> {
        Seq::new(self.cmd_history@.len(), |i: int| self.cmd_history@[i]@)
    }

    pub closed spec fn history_index(&self) -> i32 {
        self.cmd_history_index
    }

    /// The terminal's invariant: the cursor on the grid, the line within
    /// its buffer and shorter than the cursor's column, ASCII only, and a
    /// history of 8 commands that fit a line, with an index from -1 into
    /// it.
    pub closed spec fn wf(&self) -> bool {
        &&& cursor_ok(self.cursor)
        &&& self.linebuf@.len() == LINE_MAX
        &&& self.linebuf_index < LINE_MAX
        &&& self.linebuf_index <= COLUMNS - 1
        &&& forall|i: int| 0 <= i < self.linebuf_index ==> #[trigger] self.linebuf@[i] < 0x80
        &&& self.cmd_history@.len() == HISTORY_LEN
        &&& forall|i: int| 0 <= i < HISTORY_LEN ==> #[trigger] self.cmd_history@[i]@.len() <= COLUMNS - 1 && forall|k: int| 0 <= k < self.cmd_history@[i]@.len() ==> #[trigger] self.cmd_history@[i]@[k] < 0x80
        &&& -1 <= self.cmd_history_index < HISTORY_LEN
    }

    /// Where the character at the cursor is drawn.
    fn calc_cursor_pos(&self) -> (r: Vector2D<i32>)
        requires
            cursor_ok(self.cursor),
        ensures
            r.x == cursor_pos(self.cursor).x,
            r.y == cursor_pos(self.cursor).y,
    {
        Vector2D::new(4 + 8 * self.cursor.x, 4 + 16 * self.cursor.y)
    }

    /// Shows or hides the cursor block (when there is a window).
    pub fn draw_cursor(&mut self, window: &mut Window, visible: bool)
        requires
            old(self).wf(),
            old(self).has_window_spec() ==> window_fits(*old(window)),
        ensures
            final(self).wf(),
            final(self).cursor_visible_spec() == if old(self).has_window_spec() { visible } else { old(self).cursor_visible_spec() },
            final(self).cursor_spec() == old(self).cursor_spec(),
            final(self).line() == old(self).line(),
            final(self).history() == old(self).history(),
            final(self).history_index() == old(self).history_index(),
            final(self).has_window_spec() == old(self).has_window_spec(),
            final(self).layer_spec() == old(self).layer_spec(),
            final(self).task_spec() == old(self).task_spec(),
            old(self).has_window_spec() ==> forall|x: int, y: int|
                inside(x, y, old(window).base_spec().width_spec(), old(window).base_spec().height_spec())
                ==> #[trigger] final(window).base_spec().pixel(x, y)
                    == cursor_block_pixel(old(self).cursor_spec(), if visible { white() } else { black() }, old(window).base_spec().pixel(x, y), x, y),
            old(self).has_window_spec() ==> window_fits(*final(window)),
            old(self).has_window_spec() ==> final(window).base_spec().format_spec() == old(window).base_spec().format_spec(),
            old(self).has_window_spec() ==> final(window).base_spec().width_spec() == old(window).base_spec().width_spec(),
            old(self).has_window_spec() ==> final(window).base_spec().height_spec() == old(window).base_spec().height_spec(),
            old(self).has_window_spec() ==> final(window).base_spec().transparent_spec() == old(window).base_spec().transparent_spec(),
            !old(self).has_window_spec() ==> *final(window) == *old(window),
    {
        if !self.has_window {
            return;
        }
        self.cursor_visible = visible;
        let color = if visible { PixelColor::new(0xff, 0xff, 0xff) } else { PixelColor::new(0, 0, 0) };
        let pos = Vector2D::new(4 + 8 * self.cursor.x, 5 + 16 * self.cursor.y);
        window.fill_rectangle(pos, Vector2D::new(7, 15), &color);
    }

    /// Scrolls the lines of the window up by one and clears the line at the
    /// cursor (when there is a window).
    fn scroll1(&mut self, window: &mut Window)
        requires
            old(self).wf(),
            old(self).has_window ==> window_fits(*old(window)),
        ensures
            *final(self) == *old(self),
            old(self).has_window ==> window_fits(*final(window)),
            old(self).has_window ==> final(window).base_spec().format_spec() == old(window).base_spec().format_spec(),
            old(self).has_window ==> final(window).base_spec().width_spec() == old(window).base_spec().width_spec(),
            old(self).has_window ==> final(window).base_spec().height_spec() == old(window).base_spec().height_spec(),
            old(self).has_window ==> final(window).base_spec().transparent_spec() == old(window).base_spec().transparent_spec(),
            old(self).has_window ==> forall|x: int, y: int|
                inside(x, y, old(window).base_spec().width_spec(), old(window).base_spec().height_spec())
                ==> #[trigger] final(window).base_spec().pixel(x, y) == scrolled_pixel(*old(window), old(self).cursor.y as int, x, y),
            !old(self).has_window ==> *final(window) == *old(window),
    {
        if !self.has_window {
            return;
        }
        let ghost w0 = *window;
        let move_src = Rectangle { pos: Vector2D::new(4, 20), size: Vector2D::new(8 * 60, 16 * 14) };
        window.move_area(Vector2D::new(4, 4), &move_src);
        let ghost w1 = *window;
        window.fill_rectangle(Vector2D::new(4, 4 + 16 * self.cursor.y), Vector2D::new(8 * 60, 16), &PixelColor::new(0, 0, 0));
        proof {
            assert forall|x: int, y: int| inside(x, y, w0.base_spec().width_spec(), w0.base_spec().height_spec())
                implies #[trigger] window.base_spec().pixel(x, y) == scrolled_pixel(w0, self.cursor.y as int, x, y) by {
                assert(w1.base_spec().pixel(x, y) == if in_rect(x, y, Vector2D { x: 4i32, y: 4i32 }, move_src.size) {
                    w0.base_spec().pixel(x - 4 + 4, y - 4 + 20)
                } else {
                    w0.base_spec().pixel(x, y)
                });
            }
        }
    }

    /// Breaks the line: the cursor goes to the start of the next line, or
    /// the window scrolls on the last line.
    fn new_line(&mut self, window: &mut Window)
        requires
            old(self).wf(),
            old(self).has_window ==> window_fits(*old(window)),
        ensures
            final(self).wf(),
            *final(self) == (Terminal { cursor: newline(old(self).cursor), ..*old(self) }),
            old(self).has_window ==> forall|x: int, y: int|
                inside(x, y, old(window).base_spec().width_spec(), old(window).base_spec().height_spec())
                ==> #[trigger] final(window).base_spec().pixel(x, y) == if old(self).cursor.y < ROWS - 1 {
                    old(window).base_spec().pixel(x, y)
                } else {
                    scrolled_pixel(*old(window), old(self).cursor.y as int, x, y)
                },
            old(self).has_window ==> window_fits(*final(window)),
            old(self).has_window ==> final(window).base_spec().format_spec() == old(window).base_spec().format_spec(),
            old(self).has_window ==> final(window).base_spec().width_spec() == old(window).base_spec().width_spec(),
            old(self).has_window ==> final(window).base_spec().height_spec() == old(window).base_spec().height_spec(),
            old(self).has_window ==> final(window).base_spec().transparent_spec() == old(window).base_spec().transparent_spec(),
            !old(self).has_window ==> *final(window) == *old(window),
    {
        if self.cursor.y < 14 {
            self.cursor = Vector2D::new(0, self.cursor.y + 1);
        } else {
            self.scroll1(window);
            self.cursor = Vector2D::new(0, self.cursor.y);
        }
    }

    /// A terminal with an empty line and history whose prompt `>` is
    /// printed.
    pub fn new(task_id: u64, layer_id: u32, show_window: bool, window: &mut Window, font: &BitmapFont) -> (r: Self)
        requires
            font.wf(),
            show_window ==> window_fits(*old(window)),
        ensures
            r.wf(),
            r.task_spec() == task_id,
            r.layer_spec() == layer_id,
            r.has_window_spec() == show_window,
            r.line() == Seq::<u8>::empty(),
            r.history() == Seq::new(8, |i: int| Seq::<u8>::empty()),
            r.history_index() == -1,
            r.cursor_spec() == (if show_window { Vector2D { x: 1i32, y: 0i32 } } else { Vector2D { x: 0i32, y: 0i32 } }),
            show_window ==> window_fits(*final(window)),
            !show_window ==> *final(window) == *old(window),
    {
        let mut linebuf: Vec<u8> = Vec::new();
        let mut i: usize = 0;
        while i < LINE_MAX
            invariant
                i <= LINE_MAX,
                linebuf@.len() == i,
            decreases LINE_MAX - i,
        {
            linebuf.push(0);
            i = i + 1;
        }
        let mut cmd_history: VecDeque<Vec<u8>> = VecDeque::new();
        let mut j: usize = 0;
        while j < HISTORY_LEN
            invariant
                j <= HISTORY_LEN,
                cmd_history@.len() == j,
                forall|k: int| 0 <= k < j ==> #[trigger] cmd_history@[k]@ == Seq::<u8>::empty(),
            decreases HISTORY_LEN - j,
        {
            cmd_history.push_back(Vec::new());
            j = j + 1;
        }
        let mut t = Terminal {
            layer_id,
            task_id,
            has_window: show_window,
            cursor: Vector2D::new(0, 0),
            cursor_visible: false,
            linebuf_index: 0,
            linebuf,
            cmd_history,
            cmd_history_index: -1,
        };
        let prompt: [u8; 1] = [0x3e];
        t.print(window, &prompt, font);
        proof {
            assert(t.line() =~= Seq::<u8>::empty());
            assert(t.history() =~= Seq::new(8, |i: int| Seq::<u8>::empty()));
            assert(prompt@ =~= seq![0x3eu8]);
            assert(prompt@.drop_last() =~= Seq::<u8>::empty());
            reveal_with_fuel(printed, 2);
            assert(printed(Vector2D { x: 0i32, y: 0i32 }, prompt@) == Vector2D { x: 1i32, y: 0i32 });
        }
        t
    }

    /// Toggles the cursor and returns the region it covers, from the
    /// window's drawing area.
    pub fn blink_cursor(&mut self, window: &mut Window) -> (r: Rectangle<i32>)
        requires
            old(self).wf(),
            old(self).has_window_spec() ==> window_fits(*old(window)),
        ensures
            final(self).wf(),
            final(self).cursor_visible_spec() == if old(self).has_window_spec() { !old(self).cursor_visible_spec() } else { old(self).cursor_visible_spec() },
            final(self).cursor_spec() == old(self).cursor_spec(),
            final(self).has_window_spec() == old(self).has_window_spec(),
            final(self).layer_spec() == old(self).layer_spec(),
            final(self).task_spec() == old(self).task_spec(),
            final(self).history_index() == old(self).history_index(),
            final(self).line() == old(self).line(),
            final(self).history() == old(self).history(),
            r.pos.x == cursor_pos(old(self).cursor_spec()).x && r.pos.y == cursor_pos(old(self).cursor_spec()).y,
            r.size == (Vector2D { x: 7i32, y: 15i32 }),
            old(self).has_window_spec() ==> window_fits(*final(window)),
            !old(self).has_window_spec() ==> *final(window) == *old(window),
    {
        let v = !self.cursor_visible;
        self.draw_cursor(window, v);
        Rectangle { pos: self.calc_cursor_pos(), size: Vector2D::new(7, 15) }
    }

    /// Prints the ASCII text `s` at the cursor without touching the line
    /// being typed (nothing happens without a window), and returns the
    /// region to redraw: the whole width of the lines printed on.
    pub fn print(&mut self, window: &mut Window, s: &[u8], font: &BitmapFont) -> (r: Rectangle<i32>)
        requires
            old(self).wf(),
            font.wf(),
            old(self).has_window_spec() ==> window_fits(*old(window)),
            forall|i: int| 0 <= i < s@.len() ==> #[trigger] s@[i] < 0x80,
        ensures
            final(self).wf(),
            final(self).line() == old(self).line(),
            final(self).history() == old(self).history(),
            final(self).history_index() == old(self).history_index(),
            final(self).has_window_spec() == old(self).has_window_spec(),
            final(self).layer_spec() == old(self).layer_spec(),
            final(self).task_spec() == old(self).task_spec(),
            old(self).has_window_spec() ==> {
                &&& final(self).cursor_spec() == printed(old(self).cursor_spec(), s@)
                &&& final(self).cursor_visible_spec()
                &&& window_fits(*final(window))
                &&& final(window).base_spec().width_spec() == old(window).base_spec().width_spec()
                &&& final(window).base_spec().height_spec() == old(window).base_spec().height_spec()
                &&& final(window).base_spec().format_spec() == old(window).base_spec().format_spec()
                &&& final(window).base_spec().transparent_spec() == old(window).base_spec().transparent_spec()
                &&& r.pos.x == 4 && r.pos.y == 24 + cursor_pos(old(self).cursor_spec()).y
                &&& r.size.x == old(window).base_spec().width_spec() - 8
                &&& r.size.y == cursor_pos(final(self).cursor_spec()).y - cursor_pos(old(self).cursor_spec()).y + 16
                &&& forall|x: int, y: int| inside(x, y, old(window).base_spec().width_spec(), old(window).base_spec().height_spec())
                    ==> #[trigger] final(window).base_spec().pixel(x, y) == cursor_block_pixel(printed(old(self).cursor_spec(), s@), white(),
                        print_pixel(hidden_base(*old(window), old(self).cursor_spec()), *font, old(self).cursor_spec(), s@, x, y), x, y)
            },
            !old(self).has_window_spec() ==> *final(self) == *old(self) && *final(window) == *old(window),
    {
        if !self.has_window {
            return Rectangle { pos: Vector2D::new(0, 0), size: Vector2D::new(0, 0) };
        }
        let cursor_before = self.calc_cursor_pos();
        self.draw_cursor(window, false);
        let ghost c0 = self.cursor;
        let ghost hb = hidden_base(*old(window), c0);
        let ghost ww = old(window).base_spec().width_spec();
        let ghost wh = old(window).base_spec().height_spec();
        let mut i: usize = 0;
        while i < s.len()
            invariant
                self.wf(),
                font.wf(),
                self.has_window,
                window_fits(*window),
                window.base_spec().width_spec() == old(window).base_spec().width_spec(),
                window.base_spec().height_spec() == old(window).base_spec().height_spec(),
                window.base_spec().format_spec() == old(window).base_spec().format_spec(),
                window.base_spec().transparent_spec() == old(window).base_spec().transparent_spec(),
                self.line() == old(self).line(),
                self.history() == old(self).history(),
                self.cmd_history_index == old(self).cmd_history_index,
                self.layer_id == old(self).layer_id,
                self.task_id == old(self).task_id,
                c0 == old(self).cursor,
                i <= s@.len(),
                self.cursor == printed(c0, s@.take(i as int)),
                hb == hidden_base(*old(window), c0),
                ww == old(window).base_spec().width_spec(),
                wh == old(window).base_spec().height_spec(),
                forall|x: int, y: int| inside(x, y, ww, wh) ==> #[trigger] window.base_spec().pixel(x, y)
                    == print_pixel(hb, *font, c0, s@.take(i as int), x, y),
            decreases s@.len() - i,
        {
            let c = s[i];
            let ghost prev = s@.take(i as int);
            let ghost p = self.cursor;
            let ghost w0 = *window;
            proof {
                assert(s@.take(i + 1).drop_last() =~= prev);
                assert(s@.take(i + 1).last() == c);
            }
            if c == 10 {
                self.new_line(window);
                proof {
                    assert forall|x: int, y: int| inside(x, y, ww, wh) implies #[trigger] window.base_spec().pixel(x, y)
                        == print_pixel(hb, *font, c0, s@.take(i + 1), x, y) by {
                        let t = s@.take(i + 1);
                        assert(t.len() > 0 && t.drop_last() == prev && t.last() == 10);
                        assert(print_pixel(hb, *font, c0, t, x, y) == broken_pixel(hb, *font, c0, prev, x, y));
                        assert(w0.offset() == (Vector2D { x: 4int, y: 24int }));
                        assert(w0.base_spec().pixel(x, y) == print_pixel(hb, *font, c0, prev, x, y));
                        if p.y >= ROWS - 1 && in_rect(x, y, Vector2D { x: 4i32, y: 4i32 }, Vector2D { x: 480i32, y: 224i32 }) {
                            assert(inside(x, y + 16, ww, wh));
                            assert(w0.base_spec().pixel(x, y + 16) == print_pixel(hb, *font, c0, prev, x, y + 16));
                        }
                    }
                }
            } else {
                if self.cursor.x == 60 {
                    self.new_line(window);
                    proof {
                        assert forall|x: int, y: int| inside(x, y, ww, wh) implies #[trigger] window.base_spec().pixel(x, y)
                            == broken_pixel(hb, *font, c0, prev, x, y) by {
                            assert(w0.offset() == (Vector2D { x: 4int, y: 24int }));
                            assert(w0.base_spec().pixel(x, y) == print_pixel(hb, *font, c0, prev, x, y));
                            if p.y >= ROWS - 1 && in_rect(x, y, Vector2D { x: 4i32, y: 4i32 }, Vector2D { x: 480i32, y: 224i32 }) {
                                assert(inside(x, y + 16, ww, wh));
                                assert(w0.base_spec().pixel(x, y + 16) == print_pixel(hb, *font, c0, prev, x, y + 16));
                            }
                        }
                    }
                }
                let ghost w1 = *window;
                let ghost q = self.cursor;
                let pos = self.calc_cursor_pos();
                proof { window.base_spec().lemma_dims(); }
                window.write_ascii(pos, c, &PixelColor::new(255, 255, 255), font);
                self.cursor = Vector2D::new(self.cursor.x + 1, self.cursor.y);
                proof {
                    assert forall|x: int, y: int| inside(x, y, ww, wh) implies #[trigger] window.base_spec().pixel(x, y)
                        == print_pixel(hb, *font, c0, s@.take(i + 1), x, y) by {
                        assert(w1.base_spec().pixel(x, y) == (if p.x == COLUMNS { broken_pixel(hb, *font, c0, prev, x, y) } else { print_pixel(hb, *font, c0, prev, x, y) }));
                        assert(w1.offset() == (Vector2D { x: 4int, y: 24int }));
                        assert(window.base_spec().pixel(x, y) == cell_pixel(c, *font, q, w1.base_spec().pixel(x, y), x, y));
                        assert(q == if p.x == COLUMNS { newline(p) } else { p });
                        let t = s@.take(i + 1);
                        assert(t.len() > 0);
                        assert(t.drop_last() == prev);
                        assert(t.last() == c);
                        assert(printed(c0, t.drop_last()) == p);
                        if p.x == COLUMNS {
                            assert(print_pixel(hb, *font, c0, t, x, y) == cell_pixel(c, *font, newline(p), broken_pixel(hb, *font, c0, prev, x, y), x, y));
                        } else {
                            assert(print_pixel(hb, *font, c0, t, x, y) == cell_pixel(c, *font, p, print_pixel(hb, *font, c0, prev, x, y), x, y));
                        }
                        assert(window.base_spec().pixel(x, y) == print_pixel(hb, *font, c0, t, x, y));
                    }
                }
            }
            i = i + 1;
        }
        proof {
            assert(s@.take(s@.len() as int) =~= s@);
        }
        let ghost w2 = *window;
        self.draw_cursor(window, true);
        proof {
            assert forall|x: int, y: int| inside(x, y, ww, wh) implies #[trigger] window.base_spec().pixel(x, y)
                == cursor_block_pixel(printed(c0, s@), white(), print_pixel(hb, *font, c0, s@, x, y), x, y) by {
                assert(w2.base_spec().pixel(x, y) == print_pixel(hb, *font, c0, s@, x, y));
            }
        }
        let cursor_after = self.calc_cursor_pos();
        proof { window.base_spec().lemma_dims(); }
        let w = window.base().width() as i32 - 8;
        Rectangle {
            pos: Vector2D::new(4, 24 + cursor_before.y),
            size: Vector2D::new(w, cursor_after.y - cursor_before.y + 16),
        }
    }

    /// Puts one character of any text at the cursor (nothing happens
    /// without a window): a newline breaks the line, an ASCII character is
    /// drawn in its cell, and any other character takes two cells, breaking
    /// the line when fewer are left. For such a character the position to
    /// draw its glyph at is returned, for the caller to rasterise.
    pub fn put_char(&mut self, window: &mut Window, ch: char, font: &BitmapFont) -> (r: Option<Vector2D<i32>>)
        requires
            old(self).wf(),
            font.wf(),
            old(self).has_window_spec() ==> window_fits(*old(window)),
        ensures
            final(self).wf(),
            old(self).has_window_spec() ==> {
                let q = char_cell(old(self).cursor_spec(), ch);
                &&& final(self).cursor_spec() == char_step(old(self).cursor_spec(), ch)
                &&& final(self).cursor_visible_spec() == old(self).cursor_visible_spec()
                &&& final(self).line() == old(self).line()
                &&& final(self).history() == old(self).history()
                &&& final(self).history_index() == old(self).history_index()
                &&& final(self).has_window_spec() == old(self).has_window_spec()
                &&& final(self).layer_spec() == old(self).layer_spec()
                &&& final(self).task_spec() == old(self).task_spec()
                &&& r == if ch != '\n' && (ch as u32) >= 0x80 {
                    Some(Vector2D { x: (4 + 8 * q.x) as i32, y: (4 + 16 * q.y) as i32 })
                } else {
                    None::<Vector2D<i32>>
                }
                &&& window_fits(*final(window))
                &&& final(window).base_spec().width_spec() == old(window).base_spec().width_spec()
                &&& final(window).base_spec().height_spec() == old(window).base_spec().height_spec()
                &&& final(window).base_spec().format_spec() == old(window).base_spec().format_spec()
                &&& final(window).base_spec().transparent_spec() == old(window).base_spec().transparent_spec()
                &&& forall|x: int, y: int| inside(x, y, old(window).base_spec().width_spec(), old(window).base_spec().height_spec())
                    ==> #[trigger] final(window).base_spec().pixel(x, y) == put_char_pixel(*old(window), *font, old(self).cursor_spec(), ch, x, y)
            },
            !old(self).has_window_spec() ==> *final(self) == *old(self) && *final(window) == *old(window) && r is None,
    {
        if !self.has_window {
            return None;
        }
        let ghost p = self.cursor;
        let ghost w0 = *window;
        let code: u32 = ch as u32;
        let breaks = if ch == '\n' { true } else if code < 0x80 { self.cursor.x == 60 } else { self.cursor.x >= 59 };
        if breaks {
            self.new_line(window);
        }
        let ghost w1 = *window;
        let ghost q = self.cursor;
        proof {
            assert(breaks == breaks_before(p, ch));
            assert(q == char_cell(p, ch));
            assert forall|x: int, y: int| inside(x, y, w0.base_spec().width_spec(), w0.base_spec().height_spec())
                implies #[trigger] w1.base_spec().pixel(x, y) == (if breaks_before(p, ch) && p.y >= ROWS - 1 {
                    scrolled_pixel(w0, p.y as int, x, y)
                } else {
                    w0.base_spec().pixel(x, y)
                }) by {
            }
        }
        if ch == '\n' {
            return None;
        }
        let pos = self.calc_cursor_pos();
        if code < 0x80 {
            proof { window.base_spec().lemma_dims(); }
            window.write_ascii(pos, code as u8, &PixelColor::new(255, 255, 255), font);
            self.cursor = Vector2D::new(self.cursor.x + 1, self.cursor.y);
            proof {
                assert(w1.offset() == (Vector2D { x: 4int, y: 24int }));
                assert forall|x: int, y: int| inside(x, y, w0.base_spec().width_spec(), w0.base_spec().height_spec())
                    implies #[trigger] window.base_spec().pixel(x, y) == put_char_pixel(w0, *font, p, ch, x, y) by {
                    assert(window.base_spec().pixel(x, y) == cell_pixel(code as u8, *font, q, w1.base_spec().pixel(x, y), x, y));
                }
            }
            None
        } else {
            self.cursor = Vector2D::new(self.cursor.x + 2, self.cursor.y);
            Some(pos)
        }
    }

    /// The history index after moving `direction` (-1: newer, 1: older),
    /// within -1 and the history's end.
    pub open spec fn moved_index(idx: i32, direction: i32) -> i32 {
        if direction == -1 && idx >= 0 {
            (idx - 1) as i32
        } else if direction == 1 && idx + 1 < HISTORY_LEN {
            (idx + 1) as i32
        } else {
            idx
        }
    }

    /// The arrow keys walk the history: up (direction 1) goes one entry
    /// older, as far as the oldest, so from a fresh line (index -1) it
    /// recalls the latest command (index 0); down (direction -1) goes one
    /// entry newer, back to the fresh line; and down undoes up.
    pub proof fn lemma_history_walk(idx: i32)
        requires
            -1 <= idx < HISTORY_LEN,
        ensures
            idx + 1 < HISTORY_LEN ==> Self::moved_index(idx, 1i32) == idx + 1,
            idx + 1 >= HISTORY_LEN ==> Self::moved_index(idx, 1i32) == idx,
            idx >= 0 ==> Self::moved_index(idx, -1i32) == idx - 1,
            idx == -1 ==> Self::moved_index(idx, -1i32) == -1,
            idx + 1 < HISTORY_LEN ==> Self::moved_index(Self::moved_index(idx, 1i32), -1i32) == idx,
            Self::moved_index(-1i32, 1i32) == 0,
    {
    }

    /// Replaces the line with the history entry `direction` steps away
    /// (none: an empty line), redrawing it after the prompt, and returns the
    /// region redrawn. Without a window nothing happens.
    fn history_up_down(&mut self, window: &mut Window, direction: i32, font: &BitmapFont) -> (r: Rectangle<i32>)
        requires
            old(self).wf(),
            font.wf(),
            old(self).has_window ==> window_fits(*old(window)),
        ensures
            final(self).wf(),
            !old(self).has_window ==> *final(self) == *old(self) && *final(window) == *old(window)
                && r == (Rectangle { pos: Vector2D { x: 0i32, y: 0i32 }, size: Vector2D { x: 0i32, y: 0i32 } }),
            old(self).has_window ==> {
                let idx = Self::moved_index(old(self).cmd_history_index, direction);
                let h = if idx >= 0 { old(self).history()[idx as int] } else { Seq::<u8>::empty() };
                &&& final(self).cmd_history_index == idx
                &&& final(self).line() == h
                &&& final(self).cursor == (Vector2D { x: (1 + h.len()) as i32, y: old(self).cursor.y })
                &&& final(self).history() == old(self).history()
                &&& final(self).has_window == old(self).has_window
                &&& final(self).cursor_visible == old(self).cursor_visible
                &&& final(self).layer_id == old(self).layer_id
                &&& final(self).task_id == old(self).task_id
                &&& r == (Rectangle { pos: Vector2D { x: 12i32, y: (4 + 16 * old(self).cursor.y) as i32 }, size: Vector2D { x: 472i32, y: 16i32 } })
                &&& window_fits(*final(window))
                &&& final(window).base_spec().width_spec() == old(window).base_spec().width_spec()
                &&& final(window).base_spec().height_spec() == old(window).base_spec().height_spec()
                &&& final(window).base_spec().format_spec() == old(window).base_spec().format_spec()
                &&& final(window).base_spec().transparent_spec() == old(window).base_spec().transparent_spec()
            },
    {
        if !self.has_window {
            return Rectangle { pos: Vector2D::new(0, 0), size: Vector2D::new(0, 0) };
        }
        if direction == -1 && self.cmd_history_index >= 0 {
            self.cmd_history_index = self.cmd_history_index - 1;
        } else if direction == 1 && self.cmd_history_index + 1 < 8 {
            self.cmd_history_index = self.cmd_history_index + 1;
        }
        self.cursor = Vector2D::new(1, self.cursor.y);
        let first_pos = self.calc_cursor_pos();
        let draw_area = Rectangle { pos: first_pos, size: Vector2D::new(8 * 59, 16) };
        window.fill_rectangle(draw_area.pos, draw_area.size, &PixelColor::new(0, 0, 0));
        let history: Vec<u8> = if self.cmd_history_index >= 0 {
            let e = &self.cmd_history[self.cmd_history_index as usize];
            vstd::slice::slice_to_vec(e.as_slice())
        } else {
            Vec::new()
        };
        let ghost h = history@;
        proof {
            let idx = self.cmd_history_index;
            if idx >= 0 {
                assert(h == old(self).history()[idx as int]);
                assert(h == self.cmd_history@[idx as int]@);
                assert(h.len() <= COLUMNS - 1);
                assert forall|k: int| 0 <= k < h.len() implies #[trigger] h[k] < 0x80 by {
                    assert(self.cmd_history@[idx as int]@[k] < 0x80);
                }
            } else {
                assert(h =~= Seq::<u8>::empty());
            }
        }
        let ghost s1 = *self;
        let mut i: usize = 0;
        while i < history.len()
            invariant
                *self == (Terminal { linebuf: self.linebuf, ..s1 }),
                s1.wf(),
                h == history@,
                h.len() <= COLUMNS - 1,
                i <= h.len(),
                self.linebuf@.len() == LINE_MAX,
                forall|k: int| 0 <= k < i ==> #[trigger] self.linebuf@[k] == h[k],
                self.cmd_history == old(self).cmd_history,
                font.wf(),
                window_fits(*window),
                window.base_spec().width_spec() == old(window).base_spec().width_spec(),
                window.base_spec().height_spec() == old(window).base_spec().height_spec(),
                window.base_spec().format_spec() == old(window).base_spec().format_spec(),
                window.base_spec().transparent_spec() == old(window).base_spec().transparent_spec(),
                cursor_ok(self.cursor),
                first_pos.x == 12,
                first_pos.y == 4 + 16 * self.cursor.y,
                0 <= self.cursor.y < ROWS,
                forall|k: int| 0 <= k < h.len() ==> #[trigger] h[k] < 0x80,
            decreases h.len() - i,
        {
            let c = history[i];
            self.linebuf.set(i, c);
            proof { window.base_spec().lemma_dims(); }
            window.write_ascii(Vector2D::new(first_pos.x + 8 * i as i32, first_pos.y), c, &PixelColor::new(255, 255, 255), font);
            i = i + 1;
        }
        self.linebuf_index = history.len();
        self.cursor = Vector2D::new(self.cursor.x + history.len() as i32, self.cursor.y);
        proof {
            assert(self.line() =~= h);
        }
        draw_area
    }

    /// Handles a key press: arrows up and down (`keycode` 0x52 and 0x51
    /// with `ascii` 0) walk the history, backspace (8) removes the last
    /// character of the line, another character is added to the line while
    /// it and the cursor's line have room, and a newline hands the line back
    /// for the caller to carry out (then calling `finish_command`), after
    /// keeping it in the history when it is not empty. Otherwise returns
    /// the region to redraw.
    pub fn input_key(&mut self, window: &mut Window, modifier: u8, keycode: u8, ascii: u8, font: &BitmapFont) -> (r: KeyResult)
        requires
            old(self).wf(),
            font.wf(),
            old(self).has_window_spec() ==> window_fits(*old(window)),
            ascii < 0x80,
            old(self).line().len() <= old(self).cursor_spec().x,
        ensures
            final(self).wf(),
            final(self).has_window_spec() == old(self).has_window_spec(),
            final(self).layer_spec() == old(self).layer_spec(),
            final(self).task_spec() == old(self).task_spec(),
            final(self).line().len() <= final(self).cursor_spec().x,
            old(self).has_window_spec() ==> window_fits(*final(window)),
            ascii == 10 ==> {
                &&& r matches KeyResult::Execute(cmd) && cmd@ == old(self).line()
                &&& final(self).line() == Seq::<u8>::empty()
                &&& final(self).history_index() == -1
                &&& final(self).cursor_spec() == newline(old(self).cursor_spec())
                &&& final(self).history() == if old(self).line().len() > 0 {
                    seq![old(self).line()] + old(self).history().drop_last()
                } else {
                    old(self).history()
                }
            },
            ascii == 8 ==> {
                &&& r is Draw
                &&& final(self).history() == old(self).history()
                &&& if old(self).cursor_spec().x > 0 && old(self).line().len() > 0 {
                    &&& final(self).line() == old(self).line().drop_last()
                    &&& final(self).cursor_spec() == (Vector2D { x: (old(self).cursor_spec().x - 1) as i32, y: old(self).cursor_spec().y })
                } else {
                    &&& final(self).line() == old(self).line()
                    &&& final(self).cursor_spec() == old(self).cursor_spec()
                }
            },
            ascii != 0 && ascii != 10 && ascii != 8 ==> {
                &&& r is Draw
                &&& final(self).history() == old(self).history()
                &&& if old(self).cursor_spec().x < COLUMNS - 1 && old(self).line().len() < LINE_MAX - 1 {
                    &&& final(self).line() == old(self).line().push(ascii)
                    &&& final(self).cursor_spec() == (Vector2D { x: (old(self).cursor_spec().x + 1) as i32, y: old(self).cursor_spec().y })
                } else {
                    &&& final(self).line() == old(self).line()
                    &&& final(self).cursor_spec() == old(self).cursor_spec()
                }
            },
            ascii == 0 ==> r is Draw && final(self).history() == old(self).history(),
            ascii != 10 && !(ascii == 0 && (keycode == 0x51 || keycode == 0x52)) ==> r == KeyResult::Draw(Rectangle {
                pos: Vector2D { x: (4 + 8 * old(self).cursor_spec().x) as i32, y: (4 + 16 * old(self).cursor_spec().y) as i32 },
                size: Vector2D { x: 16i32, y: 16i32 },
            }),
            ascii == 0 && keycode != 0x51 && keycode != 0x52 ==> final(self).line() == old(self).line()
                && final(self).cursor_spec() == old(self).cursor_spec() && final(self).history_index() == old(self).history_index(),
            ascii == 0 && (keycode == 0x51 || keycode == 0x52) ==> {
                let idx = Self::moved_index(old(self).history_index(), if keycode == 0x51 { -1i32 } else { 1i32 });
                let h = if idx >= 0 { old(self).history()[idx as int] } else { Seq::<u8>::empty() };
                if old(self).has_window_spec() {
                    &&& final(self).history_index() == idx
                    &&& final(self).line() == h
                    &&& final(self).cursor_spec() == (Vector2D { x: (1 + h.len()) as i32, y: old(self).cursor_spec().y })
                    &&& r == KeyResult::Draw(Rectangle { pos: Vector2D { x: 12i32, y: (4 + 16 * old(self).cursor_spec().y) as i32 }, size: Vector2D { x: 472i32, y: 16i32 } })
                } else {
                    &&& final(self).history_index() == old(self).history_index()
                    &&& final(self).line() == old(self).line()
                    &&& final(self).cursor_spec() == old(self).cursor_spec()
                    &&& r == KeyResult::Draw(Rectangle { pos: Vector2D { x: 0i32, y: 0i32 }, size: Vector2D { x: 0i32, y: 0i32 } })
                }
            },
            old(self).has_window_spec() && ascii == 0 && keycode == 0x52 ==> {
                let i = old(self).history_index();
                if i + 1 < HISTORY_LEN {
                    final(self).history_index() == i + 1 && final(self).line() == old(self).history()[i + 1]
                } else {
                    final(self).history_index() == i
                }
            },
            old(self).has_window_spec() && ascii == 0 && keycode == 0x51 ==> {
                let i = old(self).history_index();
                if i >= 1 {
                    final(self).history_index() == i - 1 && final(self).line() == old(self).history()[i - 1]
                } else {
                    final(self).history_index() == -1 && final(self).line() == Seq::<u8>::empty()
                }
            },
    {
        self.draw_cursor(window, false);
        let mut draw_area = Rectangle { pos: self.calc_cursor_pos(), size: Vector2D::new(16, 16) };
        if ascii == 0 {
            if keycode == 0x51 {
                draw_area = self.history_up_down(window, -1, font);
            } else if keycode == 0x52 {
                draw_area = self.history_up_down(window, 1, font);
            }
        } else if ascii == 10 {
            let command = crate::bytes::copy_bytes(self.linebuf.as_slice(), 0, self.linebuf_index);
            let ghost old_hist = self.history();
            if self.linebuf_index > 0 {
                let _ = self.cmd_history.pop_back();
                self.cmd_history.push_front(crate::bytes::copy_bytes(self.linebuf.as_slice(), 0, self.linebuf_index));
                proof {
                    assert(self.history() =~= seq![old(self).line()] + old_hist.drop_last());
                    assert forall|i: int| 0 <= i < HISTORY_LEN implies #[trigger] self.cmd_history@[i]@.len() <= COLUMNS - 1 by {
                        if i > 0 {
                            assert(self.history()[i] == old_hist[i - 1]);
                            assert(old_hist[i - 1] == old(self).cmd_history@[i - 1]@);
                        }
                    }
                }
            }
            self.linebuf_index = 0;
            self.cmd_history_index = -1;
            self.new_line(window);
            proof {
                assert(self.line() =~= Seq::<u8>::empty());
            }
            return KeyResult::Execute(command);
        } else if ascii == 8 {
            if self.cursor.x > 0 && self.linebuf_index > 0 {
                self.cursor = Vector2D::new(self.cursor.x - 1, self.cursor.y);
                if self.has_window {
                    let p = self.calc_cursor_pos();
                    proof { window.base_spec().lemma_dims(); }
                    window.draw_rectangle(p, Vector2D::new(8, 16), &PixelColor::new(0, 0, 0));
                }
                self.linebuf_index = self.linebuf_index - 1;
                proof {
                    assert(self.line() =~= old(self).line().drop_last());
                }
            }
        } else {
            if self.cursor.x < 59 && self.linebuf_index < 127 {
                self.linebuf.set(self.linebuf_index, ascii);
                self.linebuf_index = self.linebuf_index + 1;
                if self.has_window {
                    let p = self.calc_cursor_pos();
                    proof { window.base_spec().lemma_dims(); }
                    window.write_ascii(p, ascii, &PixelColor::new(255, 255, 255), font);
                }
                self.cursor = Vector2D::new(self.cursor.x + 1, self.cursor.y);
                proof {
                    assert(self.line() =~= old(self).line().push(ascii));
                }

            }
        }
        self.draw_cursor(window, true);
        KeyResult::Draw(draw_area)
    }

    /// After a command line ran: prints the prompt `>`, shows the cursor,
    /// and returns the whole drawing area to redraw.
    pub fn finish_command(&mut self, window: &mut Window, font: &BitmapFont) -> (r: Rectangle<i32>)
        requires
            old(self).wf(),
            font.wf(),
            old(self).has_window_spec() ==> window_fits(*old(window)),
            old(self).line().len() == 0,
        ensures
            final(self).wf(),
            final(self).line() == Seq::<u8>::empty(),
            final(self).history() == old(self).history(),
            final(self).has_window_spec() == old(self).has_window_spec(),
            final(self).layer_spec() == old(self).layer_spec(),
            final(self).task_spec() == old(self).task_spec(),
            old(self).has_window_spec() ==> {
                &&& final(self).cursor_spec() == printed(old(self).cursor_spec(), seq![0x3eu8])
                &&& window_fits(*final(window))
                &&& r.pos == (Vector2D { x: 0i32, y: 0i32 })
                &&& r.size.x == old(window).base_spec().width_spec() - 8
                &&& r.size.y == old(window).base_spec().height_spec() - 28
            },
            !old(self).has_window_spec() ==> *final(self) == *old(self),
    {
        let prompt: [u8; 1] = [0x3e];
        self.print(window, &prompt, font);
        proof {
            assert(prompt@ =~= seq![0x3eu8]);
        }
        if self.has_window {
            proof { window.base_spec().lemma_dims(); }
            let size = window.size();
            self.draw_cursor(window, true);
            Rectangle { pos: Vector2D::new(0, 0), size }
        } else {
            Rectangle { pos: Vector2D::new(0, 0), size: Vector2D::new(0, 0) }
        }
    }
}

/// Where argument `i` of `args` goes in an argument buffer: after the 32
/// pointers of eight bytes, each argument followed by a 0.
pub open spec fn arg_offset(args: Seq<Vec<u8>>, i: int) -> int
    decreases i,
{
    if i <= 0 { 256 } else { arg_offset(args, i - 1) + args[i - 1]@.len() + 1 }
}

/// `buf` after the first `i` arguments were put in it: pointer `k` (the
/// address `addr` of the buffer plus the argument's offset) at byte `8 * k`,
/// the argument and a 0 at its offset.
pub open spec fn args_written(buf: Seq<u8>, args: Seq<Vec<u8>>, addr: u64, i: int) -> Seq<u8>
    decreases i,
{
    if i <= 0 {
        buf
    } else {
        arg_put(args_written(buf, args, addr, i - 1), args[i - 1]@, arg_offset(args, i - 1), i - 1, addr)
    }
}

/// `buf` with pointer `k` (to `addr + off`) at byte `8 * k`, and `a` and a
/// 0 at `off`.
pub open spec fn arg_put(buf: Seq<u8>, a: Seq<u8>, off: int, k: int, addr: u64) -> Seq<u8> {
    let with_ptr = put64(buf, 8 * k, (addr + off) % 0x1_0000_0000_0000_0000);
    Seq::new(with_ptr.len(), |j: int| if off <= j < off + a.len() { a[j - off] } else if j == off + a.len() { 0u8 } else { with_ptr[j] })
}

/// Puts argument `a` at `cur` and its pointer in slot `k`.
fn put_arg(buf: &mut Vec<u8>, a: &Vec<u8>, cur: usize, k: usize, addr: u64)
    requires
        k < 32,
        256 <= cur,
        cur + a@.len() + 1 < old(buf)@.len(),
    ensures
        final(buf)@ == arg_put(old(buf)@, a@, cur as int, k as int, addr),
{
    let alen = a.len();
    let blen = buf.len();
    let p = addr.wrapping_add(cur as u64);
    assert(p == (addr + cur) % 0x1_0000_0000_0000_0000) by (bit_vector)
        requires p == addr.wrapping_add(cur as u64);
    write_u64(buf, 8 * k, p);
    let ghost with_ptr = buf@;
    assert(with_ptr == put64(old(buf)@, 8 * k, (addr + cur) % 0x1_0000_0000_0000_0000));
    let mut j: usize = 0;
    while j < alen
        invariant
            j <= alen,
            alen == a@.len(),
            cur + alen + 1 < blen,
            blen == buf@.len(),
            with_ptr.len() == blen,
            buf@ == Seq::new(with_ptr.len(), |x: int| if cur <= x < cur + j { a@[x - cur] } else { with_ptr[x] }),
        decreases alen - j,
    {
        buf.set(cur + j, a[j]);
        j = j + 1;
        assert(buf@ =~= Seq::new(with_ptr.len(), |x: int| if cur <= x < cur + j { a@[x - cur] } else { with_ptr[x] }));
    }
    buf.set(cur + alen, 0);
    assert(buf@ =~= arg_put(old(buf)@, a@, cur as int, k as int, addr));
}

/// The first argument from `i` on that does not fit in a buffer of `n`
/// bytes (its end and 0 reach the buffer's end), or `args.len()`.
pub open spec fn first_misfit(args: Seq<Vec<u8>>, n: int, i: int) -> int
    decreases args.len() - i,
{
    if i < 0 || i >= args.len() {
        args.len() as int
    } else if arg_offset(args, i) + args[i]@.len() + 1 >= n {
        i
    } else {
        first_misfit(args, n, i + 1)
    }
}

proof fn lemma_arg_offset_grows(args: Seq<Vec<u8>>, i: int, j: int)
    requires
        0 <= i <= j,
    ensures
        arg_offset(args, i) <= arg_offset(args, j),
        256 <= arg_offset(args, i),
    decreases j,
{
    if i < j {
        lemma_arg_offset_grows(args, i, j - 1);
    } else if i > 0 {
        lemma_arg_offset_grows(args, i - 1, i - 1);
    }
}

/// Lays out `args` for an application in `buf`, which lies at address
/// `addr`: 32 pointers, then the arguments, each followed by a 0 (see
/// `args_written`); gives how many there are. Fails with `InvalidFormat`
/// for 32 or more arguments, and with `BufferTooSmall` for a buffer
/// shorter than the pointers or an argument that does not fit, after the
/// ones before it were put in.
pub fn make_arg_vector(args: &Vec<Vec<u8>>, buf: &mut Vec<u8>, addr: u64) -> (r: Result<usize, Code>)
    ensures
        final(buf)@.len() == old(buf)@.len(),
        args@.len() >= 32 ==> r == Err::<usize, Code>(Code::InvalidFormat) && final(buf)@ == old(buf)@,
        args@.len() < 32 && old(buf)@.len() < 256 ==> r == Err::<usize, Code>(Code::BufferTooSmall) && final(buf)@ == old(buf)@,
        args@.len() < 32 && old(buf)@.len() >= 256 ==> {
            let k = first_misfit(args@, old(buf)@.len() as int, 0);
            &&& final(buf)@ == args_written(old(buf)@, args@, addr, k)
            &&& r == if k < args@.len() { Err::<usize, Code>(Code::BufferTooSmall) } else { Ok::<usize, Code>(args@.len() as usize) }
        },
{
    let n = args.len();
    if n >= 32 {
        return Err(Code::InvalidFormat);
    }
    let blen = buf.len();
    if blen < 256 {
        return Err(Code::BufferTooSmall);
    }
    let mut cur: usize = 256;
    let mut i: usize = 0;
    while i < n
        invariant
            n == args@.len() < 32,
            blen == buf@.len() == old(buf)@.len(),
            blen >= 256,
            i <= n,
            cur == arg_offset(args@, i as int),
            cur <= blen,
            first_misfit(args@, blen as int, 0) == first_misfit(args@, blen as int, i as int),
            buf@ == args_written(old(buf)@, args@, addr, i as int),
        decreases n - i,
    {
        let a = &args[i];
        let alen = a.len();
        if cur >= blen || alen >= blen - cur - 1 {
            assert(first_misfit(args@, blen as int, i as int) == i);
            return Err(Code::BufferTooSmall);
        }
        proof { lemma_arg_offset_grows(args@, 0, i as int); }
        put_arg(buf, a, cur, i, addr);
        proof {
            assert(args@[i as int]@ == a@);
        }
        cur = cur + alen + 1;
        i = i + 1;
    }
    Ok(n)
}

/// What the terminal task does after a message: nothing more, send the
/// main task a message (a region of the window to redraw), or carry out a
/// command line (then call `Terminal::finish_command`).
pub enum TerminalStep {
    Idle,
    Send(Message),
    Execute(Vec<u8>),
}

/// The value of the terminal task's cursor timer.
pub const BLINK_TIMER_VALUE: i32 = 1;

/// The region a key redraws, in the drawing area, with the cursor at `c`:
/// the line after the prompt for the history keys, else the cell at the
/// cursor.
pub open spec fn key_area(c: Vector2D<i32>, keycode: u8, ascii: u8) -> Rectangle<i32> {
    if ascii == 0 && (keycode == 0x51 || keycode == 0x52) {
        Rectangle { pos: Vector2D { x: 12i32, y: (4 + 16 * c.y) as i32 }, size: Vector2D { x: 472i32, y: 16i32 } }
    } else {
        Rectangle { pos: Vector2D { x: (4 + 8 * c.x) as i32, y: (4 + 16 * c.y) as i32 }, size: Vector2D { x: 16i32, y: 16i32 } }
    }
}

/// The message asking the main task to redraw `area` of the drawing area
/// of the terminal's layer `layer_id`, sent by task `task_id`.
pub open spec fn redraw_message(task_id: u64, layer_id: u32, area: Rectangle<i32>) -> Message {
    layer_message(task_id, LayerOperation::DrawArea, layer_id,
        Vector2D { x: (area.pos.x + 4) as i32, y: (area.pos.y + 24) as i32 }, area.size)
}

/// The terminal task's handling of one message (its main loop calls this
/// for each message it receives, adds the returned timer and acts on the
/// returned step):
/// - a timer timeout blinks the cursor of a shown, active window, asks
///   for the cursor's region to be redrawn, and sets the next blink half a
///   second after the timeout;
/// - a key press goes to `input_key`; with a window, the region it drew is
///   redrawn, and a newline hands the command line out;
/// - a change of the window's activity is recorded, and the next blink is
///   set half a second from `current_tick`;
/// - anything else, and a key release, is ignored.
pub fn terminal_on_message(term: &mut Terminal, window: &mut Window, window_active: &mut bool, msg: &Message, current_tick: u64, font: &BitmapFont) -> (r: (Option<Timer>, TerminalStep))
    requires
        old(term).wf(),
        font.wf(),
        old(term).has_window_spec() ==> window_fits(*old(window)),
        old(term).line().len() <= old(term).cursor_spec().x,
        msg.ty matches MessageType::TimerTimeout { timeout, .. } ==> timeout + TIMER_FREQ / 2 <= u64::MAX,
        msg.ty matches MessageType::KeyPush { ascii, .. } ==> ascii < 0x80,
        msg.ty is WindowActive ==> current_tick + TIMER_FREQ / 2 <= u64::MAX,
    ensures
        final(term).wf(),
        final(term).line().len() <= final(term).cursor_spec().x,
        final(term).has_window_spec() == old(term).has_window_spec(),
        final(term).layer_spec() == old(term).layer_spec(),
        final(term).task_spec() == old(term).task_spec(),
        old(term).has_window_spec() ==> window_fits(*final(window)),
        ({
            let task_id = old(term).task_spec();
            let layer_id = old(term).layer_spec();
            let c = old(term).cursor_spec();
            match msg.ty {
                MessageType::TimerTimeout { timeout, .. } => if old(term).has_window_spec() && *old(window_active) {
                    &&& r.0 == Some(Timer::of((timeout + TIMER_FREQ / 2) as u64, BLINK_TIMER_VALUE, task_id))
                    &&& r.1 == TerminalStep::Send(redraw_message(task_id, layer_id,
                        Rectangle { pos: Vector2D { x: (4 + 8 * c.x) as i32, y: (4 + 16 * c.y) as i32 }, size: Vector2D { x: 7i32, y: 15i32 } }))
                    &&& final(term).cursor_visible_spec() == !old(term).cursor_visible_spec()
                    &&& final(term).cursor_spec() == c
                    &&& final(term).line() == old(term).line()
                    &&& final(term).history() == old(term).history()
                    &&& *final(window_active) == *old(window_active)
                } else {
                    r.0 is None && r.1 is Idle && *final(term) == *old(term) && *final(window) == *old(window)
                        && *final(window_active) == *old(window_active)
                },
                MessageType::KeyPush { keycode, ascii, press, .. } => {
                    &&& r.0 is None
                    &&& *final(window_active) == *old(window_active)
                    &&& if !press {
                        r.1 is Idle && *final(term) == *old(term) && *final(window) == *old(window)
                    } else if ascii == 10 {
                        &&& r.1 matches TerminalStep::Execute(cmd) && cmd@ == old(term).line()
                        &&& final(term).line() == Seq::<u8>::empty()
                        &&& final(term).cursor_spec() == newline(c)
                    } else if old(term).has_window_spec() {
                        r.1 == TerminalStep::Send(redraw_message(task_id, layer_id, key_area(c, keycode, ascii)))
                    } else {
                        r.1 is Idle
                    }
                },
                MessageType::WindowActive { activate } => {
                    &&& *final(window_active) == activate
                    &&& r.0 == Some(Timer::of((current_tick + TIMER_FREQ / 2) as u64, BLINK_TIMER_VALUE, task_id))
                    &&& r.1 is Idle
                    &&& *final(term) == *old(term)
                    &&& *final(window) == *old(window)
                },
                _ => r.0 is None && r.1 is Idle && *final(term) == *old(term) && *final(window) == *old(window)
                    && *final(window_active) == *old(window_active),
            }
        }),
{
    let task_id = term.task_id;
    let layer_id = term.layer_id;
    match msg.ty {
        MessageType::TimerTimeout { timeout, .. } => {
            if term.has_window && *window_active {
                let area = term.blink_cursor(window);
                let timer = Timer::new(timeout + TIMER_FREQ / 2, BLINK_TIMER_VALUE, task_id);
                let moved = Rectangle { pos: Vector2D::new(area.pos.x + 4, area.pos.y + 24), size: area.size };
                (Some(timer), TerminalStep::Send(Message::from_draw_area(task_id, layer_id, moved)))
            } else {
                (None, TerminalStep::Idle)
            }
        },
        MessageType::KeyPush { modifier, keycode, ascii, press } => {
            if !press {
                return (None, TerminalStep::Idle);
            }
            let show = term.has_window;
            match term.input_key(window, modifier, keycode, ascii, font) {
                KeyResult::Execute(cmd) => (None, TerminalStep::Execute(cmd)),
                KeyResult::Draw(area) => {
                    if show {
                        let moved = Rectangle { pos: Vector2D::new(area.pos.x + 4, area.pos.y + 24), size: area.size };
                        (None, TerminalStep::Send(Message::from_draw_area(task_id, layer_id, moved)))
                    } else {
                        (None, TerminalStep::Idle)
                    }
                },
            }
        },
        MessageType::WindowActive { activate } => {
            *window_active = activate;
            (Some(Timer::new(current_tick + TIMER_FREQ / 2, BLINK_TIMER_VALUE, task_id)), TerminalStep::Idle)
        },
        _ => (None, TerminalStep::Idle),
    }
}

} // verus!
