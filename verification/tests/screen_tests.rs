use mikan_os::console::{init as console_init, PanicConsole};
use mikan_os::font::BitmapFont;
use mikan_os::frame_buffer::{FrameBuffer, FrameBufferConfig, PixelFormat};
use mikan_os::graphics::{PixelColor, Vector2D};
use mikan_os::interrupt::{hex_text, print_frame, print_hex, InterruptFrame};
use mikan_os::layer::LayerManager;
use mikan_os::pixel_writer::{draw_desktop, BgrResv8BitPerColorPixelWriter, PixelWriter, RgbResv8BitPerColorPixelWriter};
use mikan_os::text_box::{draw_text_cursor, TextBox};
use mikan_os::window::{Window, WindowBase};

fn config(w: usize, h: usize) -> FrameBufferConfig {
    FrameBufferConfig {
        frame_buffer: 0,
        pixels_per_scan_line: w,
        horizontal_resolution: w,
        vertical_resolution: h,
        pixel_format: PixelFormat::Bgr,
    }
}

/// A font whose glyph for `c` has `c` as its first row and nothing below.
fn code_font() -> BitmapFont {
    let glyphs: Vec<[u8; 16]> = (0..256).map(|c| {
        let mut g = [0u8; 16];
        g[0] = c as u8;
        g
    }).collect();
    BitmapFont::new(glyphs).unwrap()
}

/// A font whose glyphs have only their leftmost pixel set, on every row.
fn bar_font() -> BitmapFont {
    BitmapFont::new(vec![[0x80u8; 16]; 256]).unwrap()
}

fn white() -> PixelColor {
    PixelColor::new(255, 255, 255)
}

fn black() -> PixelColor {
    PixelColor::new(0, 0, 0)
}

#[test]
fn desktop_colors() {
    let mut fb = FrameBuffer::new(config(800, 600)).unwrap();
    draw_desktop(&mut fb);
    assert_eq!(fb.read(Vector2D::new(0, 0)), PixelColor::new(45, 118, 237));
    assert_eq!(fb.read(Vector2D::new(799, 549)), PixelColor::new(45, 118, 237));
    assert_eq!(fb.read(Vector2D::new(500, 580)), PixelColor::new(1, 8, 17));
    assert_eq!(fb.read(Vector2D::new(100, 560)), PixelColor::new(80, 80, 80));
    assert_eq!(fb.read(Vector2D::new(20, 570)), PixelColor::new(160, 160, 160));
    assert_eq!(fb.read(Vector2D::new(40, 570)), PixelColor::new(80, 80, 80));
}

#[test]
fn hex_digits_text() {
    assert_eq!(hex_text(0x1f, 4), b"001f".to_vec());
    assert_eq!(hex_text(0xdead_beef, 8), b"deadbeef".to_vec());
    assert_eq!(hex_text(0x12345, 2), b"45".to_vec());
    assert_eq!(hex_text(7, 0), Vec::<u8>::new());
}

#[test]
fn print_hex_draws_digits_in_black() {
    let font = code_font();
    let mut fb = FrameBuffer::new(config(64, 32)).unwrap();
    fb.fill_rectangle(Vector2D::new(0, 0), Vector2D::new(64, 32), &white());
    print_hex(0xab, 2, Vector2D::new(0, 0), &mut fb, &font);
    // 'a' is 0x61: pixels 1, 2 and 7 of its first row are set.
    assert_eq!(fb.read(Vector2D::new(0, 0)), white());
    assert_eq!(fb.read(Vector2D::new(1, 0)), black());
    assert_eq!(fb.read(Vector2D::new(7, 0)), black());
    // 'b' is 0x62: pixels 1, 2 and 6.
    assert_eq!(fb.read(Vector2D::new(8 + 6, 0)), black());
    assert_eq!(fb.read(Vector2D::new(8 + 7, 0)), white());
    assert_eq!(fb.read(Vector2D::new(1, 1)), white());
    print_hex(0xff, 0, Vector2D::new(0, 16), &mut fb, &font);
    assert_eq!(fb.read(Vector2D::new(1, 16)), white());
}

#[test]
fn print_frame_draws_the_registers() {
    let font = bar_font();
    let mut fb = FrameBuffer::new(config(800, 64)).unwrap();
    fb.fill_rectangle(Vector2D::new(0, 0), Vector2D::new(800, 64), &white());
    let frame = InterruptFrame { rip: 0x1234, cs: 8, rflags: 0x202, rsp: 0x8000, ss: 0x10 };
    print_frame(&frame, b"#PF", &mut fb, &font);
    assert_eq!(fb.read(Vector2D::new(500, 0)), black());
    assert_eq!(fb.read(Vector2D::new(501, 0)), white());
    assert_eq!(fb.read(Vector2D::new(516, 15)), black());
    assert_eq!(fb.read(Vector2D::new(524, 0)), white());
    assert_eq!(fb.read(Vector2D::new(556, 16)), black());
    assert_eq!(fb.read(Vector2D::new(596 + 8 * 15, 48)), black());
    assert_eq!(fb.read(Vector2D::new(596 + 8 * 16, 48)), white());
    assert_eq!(fb.read(Vector2D::new(499, 20)), white());
}

#[test]
fn panic_console_draws_cells_and_stops_at_the_bottom() {
    let font = bar_font();
    let mut con = PanicConsole::new(&config(16, 32));
    assert_eq!(con.col_num, 2);
    assert_eq!(con.row_num, 2);
    let mut fb = vec![7u32; 16 * 2 * 16];
    assert_eq!(con.write_str(&mut fb, b"ab", &font), Ok(()));
    assert_eq!(fb[0], u32::MAX);
    assert_eq!(fb[1], 0);
    assert_eq!(fb[8], u32::MAX);
    assert_eq!(fb[16 * 15 + 8], u32::MAX);
    assert_eq!(con.col_pos, 2);
    assert_eq!(con.write_str(&mut fb, b"\n", &font), Ok(()));
    assert_eq!((con.row_pos, con.col_pos), (1, 0));
    assert!(con.fits(b"xy"));
    assert!(!con.fits(b"xyz"));
    assert_eq!(con.write_str(&mut fb, b"x\n", &font), Ok(()));
    assert_eq!(fb[16 * 16], u32::MAX);
    assert_eq!(fb[16 * 16 + 8], 0);
    assert_eq!((con.row_pos, con.col_pos), (2, 0));
    assert_eq!(con.write_str(&mut fb, b"more", &font), Ok(()));
    assert_eq!(con.row_pos, 2);
}

#[test]
fn panic_console_refuses_non_ascii() {
    let font = bar_font();
    let mut con = PanicConsole::new(&config(16, 32));
    let mut fb = vec![7u32; 512];
    assert_eq!(con.write_str(&mut fb, &[0x61, 0xc3, 0xa9], &font), Err(()));
    assert_eq!(fb[0], 7);
    assert_eq!(con.col_pos, 0);
}

#[test]
fn layers_up_down_heights() {
    let fb = FrameBuffer::new(config(64, 64)).unwrap();
    let mut m = LayerManager::new(fb);
    let a = m.new_layer(Window::new_base(8, 8, PixelFormat::Bgr));
    let b = m.new_layer(Window::new_base(8, 8, PixelFormat::Bgr));
    assert_eq!(m.get_height(a), -1);
    m.up_down(a, 0);
    m.up_down(b, 5);
    assert_eq!(m.get_height(a), 0);
    assert_eq!(m.get_height(b), 1);
    m.up_down(a, 9);
    assert_eq!(m.get_height(a), 1);
    assert_eq!(m.get_height(b), 0);
    m.up_down(b, -1);
    assert_eq!(m.get_height(b), -1);
    assert_eq!(m.get_height(a), 0);
}

#[test]
fn layer_moves_and_is_found_by_position() {
    let fb = FrameBuffer::new(config(64, 64)).unwrap();
    let mut m = LayerManager::new(fb);
    let a = m.new_layer(Window::new_base(8, 8, PixelFormat::Bgr));
    m.up_down(a, 0);
    m.move_to(a, Vector2D::new(10, 20));
    assert_eq!(m.find_layer(a).unwrap().pos(), Vector2D::new(10, 20));
    assert_eq!(m.find_layer_by_position(&Vector2D::new(12, 25), 0), Some(a));
    assert_eq!(m.find_layer_by_position(&Vector2D::new(12, 25), a), None);
    assert_eq!(m.find_layer_by_position(&Vector2D::new(0, 0), 0), None);
    m.move_relative(a, Vector2D::new(-5, 1));
    assert_eq!(m.find_layer(a).unwrap().pos(), Vector2D::new(5, 21));
}

#[test]
fn layer_drawing_reaches_the_screen() {
    let fb = FrameBuffer::new(config(32, 32)).unwrap();
    let mut m = LayerManager::new(fb);
    let mut w = Window::new_base(4, 4, PixelFormat::Bgr);
    w.fill_rectangle(Vector2D::new(0, 0), Vector2D::new(4, 4), &white());
    let a = m.new_layer(w);
    m.up_down(a, 0);
    m.move_to(a, Vector2D::new(3, 3));
    m.draw_id(a);
    assert_eq!(m.screen().read(Vector2D::new(3, 3)), white());
    assert_eq!(m.screen().read(Vector2D::new(6, 6)), white());
    assert_eq!(m.screen().read(Vector2D::new(7, 7)), black());
}

#[test]
fn rgb_writer_puts_red_first() {
    let mut cfg = config(4, 3);
    cfg.pixels_per_scan_line = 5;
    cfg.frame_buffer = 0x8000_0000;
    let mut w = RgbResv8BitPerColorPixelWriter::new(cfg, vec![0u8; 4 * 5 * 3]);
    w.write(Vector2D::new(1, 2), &PixelColor::new(1, 2, 3));
    let o = 4 * (5 * 2 + 1);
    assert_eq!(&w.memory()[o..o + 4], &[1, 2, 3, 0]);
    assert_eq!(w.frame_buffer(), 0x8000_0000);
    assert_eq!(w.pixels_per_scan_line(), 5);
    assert_eq!(w.horizontal_resolution(), 4);
    assert_eq!(w.vertical_resolution(), 3);
}

#[test]
fn bgr_writer_puts_blue_first() {
    let mut w = BgrResv8BitPerColorPixelWriter::new(config(4, 3), vec![9u8; 48]);
    w.write(Vector2D::new(3, 0), &PixelColor::new(1, 2, 3));
    assert_eq!(&w.memory()[12..16], &[3, 2, 1, 9]);
    assert_eq!(&w.memory()[0..4], &[9, 9, 9, 9]);
}

#[test]
fn writer_fills_and_outlines() {
    let mut w = RgbResv8BitPerColorPixelWriter::new(config(6, 6), vec![0u8; 144]);
    w.fill_rectangle(Vector2D::new(1, 1), Vector2D::new(2, 2), &PixelColor::new(7, 7, 7));
    let px = |w: &RgbResv8BitPerColorPixelWriter, x: usize, y: usize| w.memory()[4 * (6 * y + x)];
    assert_eq!(px(&w, 1, 1), 7);
    assert_eq!(px(&w, 2, 2), 7);
    assert_eq!(px(&w, 3, 3), 0);
    w.draw_rectangle(Vector2D::new(0, 0), Vector2D::new(6, 6), &PixelColor::new(5, 5, 5));
    assert_eq!(px(&w, 0, 3), 5);
    assert_eq!(px(&w, 5, 5), 5);
    assert_eq!(px(&w, 3, 0), 5);
    assert_eq!(px(&w, 3, 3), 0);
    assert_eq!(px(&w, 1, 1), 7);
    w.draw_rectangle(Vector2D::new(2, 2), Vector2D::new(0, 0), &PixelColor::new(9, 9, 9));
    assert_eq!(px(&w, 2, 2), 7);
}

#[test]
fn desktop_through_a_screen_writer() {
    let mut w = BgrResv8BitPerColorPixelWriter::new(config(100, 60), vec![0u8; 4 * 100 * 60]);
    draw_desktop(&mut w);
    let at = |x: usize, y: usize| {
        let o = 4 * (100 * y + x);
        (w.memory()[o + 2], w.memory()[o + 1], w.memory()[o])
    };
    assert_eq!(at(0, 0), (45, 118, 237));
    assert_eq!(at(50, 55), (1, 8, 17));
    assert_eq!(at(5, 55), (80, 80, 80));
    assert_eq!(at(15, 25), (160, 160, 160));
    assert_eq!(at(45, 25), (1, 8, 17));
    assert_eq!(at(99, 9), (45, 118, 237));
}

#[test]
fn text_box_types_erases_and_blinks() {
    let font = BitmapFont::new(vec![[0xffu8; 16]; 256]).unwrap();
    let mut w = WindowBase::new(160, 52, PixelFormat::Bgr);
    w.fill_rectangle(Vector2D::new(0, 0), Vector2D::new(160, 52), &PixelColor::new(255, 255, 255));
    let mut tb = TextBox::new();
    tb.input(&mut w, b'a', &font);
    assert_eq!(tb.index, 1);
    // The glyph (all ink in this font) and the cursor after it.
    assert_eq!(w.at(Vector2D::new(8, 30)), PixelColor::new(0, 0, 0));
    assert_eq!(w.at(Vector2D::new(16, 29)), PixelColor::new(0, 0, 0));
    // Control characters other than a backspace do nothing.
    tb.input(&mut w, 0x01, &font);
    assert_eq!(tb.index, 1);
    tb.input(&mut w, 0x08, &font);
    assert_eq!(tb.index, 0);
    assert_eq!(w.at(Vector2D::new(15, 45)), PixelColor::new(255, 255, 255));
    assert_eq!(w.at(Vector2D::new(16, 29)), PixelColor::new(255, 255, 255));
    assert_eq!(w.at(Vector2D::new(8, 29)), PixelColor::new(0, 0, 0));
    // Nothing to erase at the start.
    tb.input(&mut w, 0x08, &font);
    assert_eq!(tb.index, 0);
    // The box holds (160 - 16) / 8 = 18 characters.
    for _ in 0..20 {
        tb.input(&mut w, b'x', &font);
    }
    assert_eq!(tb.index, 18);
    assert!(!tb.cursor_visible);
    tb.blink(&mut w);
    assert!(tb.cursor_visible);
    assert_eq!(w.at(Vector2D::new(8 + 8 * 18, 29)), PixelColor::new(0, 0, 0));
    tb.blink(&mut w);
    assert_eq!(w.at(Vector2D::new(8 + 8 * 18, 29)), PixelColor::new(255, 255, 255));
    draw_text_cursor(true, 0, &mut w);
    assert_eq!(w.at(Vector2D::new(14, 43)), PixelColor::new(0, 0, 0));
}

#[test]
fn console_init_fills_the_desktop() {
    let fb = FrameBuffer::new(config(64, 100)).unwrap();
    let mut m = LayerManager::new(fb);
    let bg = m.new_layer(Window::new_base(64, 100, PixelFormat::Bgr));
    m.up_down(bg, 0);
    let con = console_init(&mut m);
    // 64 by 50 pixels: 3 rows of 16 and 8 columns of 8.
    assert_eq!(con.row_num(), 3);
    assert_eq!(con.column_num(), 8);
    assert_eq!(m.get_height(bg + 1), 1);
    let win = m.find_layer(bg + 1).unwrap().window();
    assert_eq!(win.size(), Vector2D::new(64, 50));
    assert_eq!(win.at(Vector2D::new(63, 49)), PixelColor::new(45, 118, 237));
}

#[test]
fn frame_buffer_keeps_the_configured_memory() {
    let mut cfg = config(4, 3);
    cfg.frame_buffer = 0x8000_0000;
    cfg.pixels_per_scan_line = 5;
    let fb = FrameBuffer::new(cfg).unwrap();
    assert_eq!(fb.frame_buffer(), 0x8000_0000);
    assert_eq!(fb.pixels_per_scan_line(), 5);
    assert_eq!(fb.horizontal_resolution(), 4);
    // Without an address the buffer is its own, rows as long as its width.
    let mut cfg = config(4, 3);
    cfg.pixels_per_scan_line = 9;
    let shadow = FrameBuffer::new(cfg).unwrap();
    assert_eq!(shadow.frame_buffer(), 0);
    assert_eq!(shadow.pixels_per_scan_line(), 4);
}

#[test]
fn console_put_string_scrolls_and_redraws() {
    let font = BitmapFont::new(vec![[0xffu8; 16]; 256]).unwrap();
    let fb = FrameBuffer::new(config(64, 82)).unwrap();
    let mut m = LayerManager::new(fb);
    let bg = m.new_layer(Window::new_base(64, 82, PixelFormat::Bgr));
    m.up_down(bg, 0);
    let mut con = console_init(&mut m);
    assert_eq!((con.row_num(), con.column_num()), (2, 8));
    con.put_string(&mut m, b"ab\ncd\nef", &font);
    let white = PixelColor::new(255, 255, 255);
    let blue = PixelColor::new(45, 118, 237);
    let id = bg + 1;
    let win = m.find_layer(id).unwrap().window();
    // "cd" scrolled up to the first line, "ef" on the second.
    assert_eq!(win.at(Vector2D::new(3, 3)), white);
    assert_eq!(win.at(Vector2D::new(12, 15)), white);
    assert_eq!(win.at(Vector2D::new(20, 5)), blue);
    assert_eq!(win.at(Vector2D::new(3, 20)), white);
    assert_eq!(win.at(Vector2D::new(20, 20)), blue);
    assert!(!con.is_head());
    // The layer was drawn to the screen.
    assert_eq!(m.screen().read(Vector2D::new(3, 3)), white);
    assert_eq!(m.screen().read(Vector2D::new(20, 20)), blue);
}
