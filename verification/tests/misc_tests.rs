use mikan_os::acpi::{sum_bytes, wait_begin, wait_milli_seconds, wait_step, WaitPhase, RSDP};
use mikan_os::app_event::AppEvent;
use mikan_os::bitfield::{get_bit, get_bits, set_bit, set_bits};
use mikan_os::chars::Str8Buf;
use mikan_os::elf::{Elf64Ehdr, Elf64Phdr, ProgramType, EHDR_LEN};
use mikan_os::font::BitmapFont;
use mikan_os::frame_buffer::PixelFormat;
use mikan_os::graphics::{Rectangle, Vector2D};
use mikan_os::paging::{LinearAddress4Level, PageMapEntry};
use mikan_os::pci::{find_xhc, ClassCode, Device};
use mikan_os::message::{LayerOperation, Message, MessageType};
use mikan_os::terminal::{split_words, terminal_on_message, KeyResult, Terminal, TerminalStep, COLUMNS, ROWS};
use mikan_os::util::OnceStatic;
use mikan_os::window::Window;

fn valid_rsdp() -> Vec<u8> {
    let mut b = vec![0u8; 36];
    b[..8].copy_from_slice(b"RSD PTR ");
    b[15] = 2;
    let s20: u32 = b[..20].iter().map(|&x| x as u32).sum();
    b[8] = ((256 - s20 % 256) % 256) as u8;
    let s36: u32 = b.iter().map(|&x| x as u32).sum();
    b[32] = ((256 - s36 % 256) % 256) as u8;
    b
}

#[test]
fn rsdp_checksums() {
    let b = valid_rsdp();
    assert_eq!(sum_bytes(&b, 20), 0);
    assert_eq!(sum_bytes(&b, 36), 0);
    assert!(RSDP::from_bytes(&b).unwrap().is_valid());
    let mut bad = b.clone();
    bad[15] = 1;
    assert!(!RSDP::from_bytes(&bad).unwrap().is_valid());
    let mut bad_sig = b.clone();
    bad_sig[0] = b'X';
    assert!(!RSDP::from_bytes(&bad_sig).unwrap().is_valid());
    assert!(RSDP::from_bytes(&b[..35]).is_none());
}

#[test]
fn pm_timer_wait_end() {
    // 3579545 ticks per second: 1 ms is 3579 ticks.
    assert_eq!(wait_milli_seconds(0x100, 0, 1), (3579, false));
    assert_eq!(wait_milli_seconds(0, 0xff_ffff, 1), (3578, true));
    assert_eq!(wait_milli_seconds(0x100, 0xffff_ffff, 1), (3578, true));
}

#[test]
fn elf_headers() {
    let mut b = vec![0u8; EHDR_LEN];
    b[..4].copy_from_slice(b"\x7fELF");
    b[16] = 2;
    b[24..32].copy_from_slice(&0x40_1000u64.to_le_bytes());
    b[56] = 3;
    let h = Elf64Ehdr::from_bytes(&b).unwrap();
    assert_eq!(h.kind, 2);
    assert_eq!(h.entry, 0x40_1000);
    assert_eq!(h.phnum, 3);
    assert!(Elf64Ehdr::from_bytes(&b[..63]).is_none());
    let mut p = vec![0u8; 56];
    p[0] = 1;
    p[16..24].copy_from_slice(&0x1000u64.to_le_bytes());
    let ph = Elf64Phdr::from_bytes(&p).unwrap();
    assert_eq!(ph.kind, ProgramType::Load.value());
    assert_eq!(ph.vaddr, 0x1000);
}

#[test]
fn bits() {
    assert_eq!(get_bits(0xabcd, 4, 12), 0xbc);
    assert_eq!(set_bits(0xffff, 4, 8, 0), 0xff0f);
    assert!(get_bit(0b100, 2));
    assert_eq!(set_bit(0, 63, true), 1 << 63);
}

#[test]
fn page_map_entries_and_addresses() {
    let mut e = PageMapEntry { data: 0 };
    e.set_present(true);
    e.set_writable(true);
    e.set_addr(0x1234);
    assert!(e.persent());
    assert!(e.writable());
    assert!(!e.user());
    assert_eq!(e.addr(), 0x1234);
    e.set_pointer(0x5000);
    assert_eq!(e.pointer_addr(), 0x5000);
    let mut a = LinearAddress4Level { addr: 0 };
    a.set_pml4(1);
    a.set_pdp(2);
    a.set_dir(3);
    a.set_page(4);
    a.set_offset(5);
    assert_eq!(a.part(4), 1);
    assert_eq!(a.part(3), 2);
    assert_eq!(a.part(2), 3);
    assert_eq!(a.part(1), 4);
    assert_eq!(a.offset(), 5);
}

#[test]
fn once_static() {
    let mut o: OnceStatic<u32> = OnceStatic::new();
    assert!(!o.is_initialized());
    o.init(5);
    assert!(o.is_initialized());
    assert_eq!(o.get(), 5);
    assert_eq!(*OnceStatic::from_value(9u32).as_ref(), 9);
}

#[test]
fn narrow_string_buffer() {
    let mut b = Str8Buf::new(vec![0u8; 4]);
    b.write_str("hello");
    assert_eq!(b.get(), b"hel");
}

#[test]
fn app_event_kinds() {
    assert_eq!(AppEvent::Quit.kind(), 1);
    assert_eq!(AppEvent::KeyPush { modifier: 0, keycode: 4, ascii: b'a', press: true }.kind(), 5);
}

#[test]
fn rectangles_intersect() {
    let a = Rectangle { pos: Vector2D::new(0, 0), size: Vector2D::new(10, 10) };
    let b = Rectangle { pos: Vector2D::new(5, 6), size: Vector2D::new(10, 10) };
    let c = a.intersection(&b);
    assert_eq!(c.pos, Vector2D::new(5, 6));
    assert_eq!(c.size, Vector2D::new(5, 4));
}

#[test]
fn command_line_words() {
    assert_eq!(split_words(b"  ls  -l a "), vec![b"ls".to_vec(), b"-l".to_vec(), b"a".to_vec()]);
    assert_eq!(split_words(b""), Vec::<Vec<u8>>::new());
    assert_eq!(split_words(b"   "), Vec::<Vec<u8>>::new());
}

#[test]
fn terminal_collects_a_command_line() {
    let font = BitmapFont::new(vec![[0u8; 16]; 256]).unwrap();
    let w = (8 * COLUMNS + 16) as u32;
    let h = (16 * ROWS + 36) as u32;
    let mut win = Window::new_toplevel(w, h, PixelFormat::Bgr, "term", &font);
    let mut term = Terminal::new(1, 2, true, &mut win, &font);
    assert!(matches!(term.input_key(&mut win, 0, 0, b'l', &font), KeyResult::Draw(_)));
    assert!(matches!(term.input_key(&mut win, 0, 0, b's', &font), KeyResult::Draw(_)));
    assert!(matches!(term.input_key(&mut win, 0, 0, b'x', &font), KeyResult::Draw(_)));
    assert!(matches!(term.input_key(&mut win, 0, 0, 8, &font), KeyResult::Draw(_)));
    match term.input_key(&mut win, 0, 0, b'\n', &font) {
        KeyResult::Execute(cmd) => assert_eq!(cmd, b"ls".to_vec()),
        KeyResult::Draw(_) => panic!("a newline carries the line out"),
    }
    match term.input_key(&mut win, 0, 0, b'\n', &font) {
        KeyResult::Execute(cmd) => assert!(cmd.is_empty()),
        KeyResult::Draw(_) => panic!("a newline carries the line out"),
    }
}

#[test]
fn wait_runs_until_the_end_value() {
    // 24-bit timer, 1 ms from 100: 3579 ticks, end 3679, no wrap.
    let (end, phase) = wait_begin(0, 100, 1);
    assert_eq!(end, 3679);
    assert_eq!(phase, WaitPhase::Counting);
    assert_eq!(wait_step(phase, 100, end, 3678), WaitPhase::Counting);
    assert_eq!(wait_step(phase, 100, end, 3679), WaitPhase::Done);
    assert_eq!(wait_step(WaitPhase::Done, 100, end, 0), WaitPhase::Done);
}

#[test]
fn wait_waits_for_the_wrap_first() {
    // 24-bit timer close to its top: the end wraps below the start.
    let start: u32 = 0xff_fff0;
    let (end, phase) = wait_begin(0, start, 1);
    assert_eq!(end, (0xff_fff0 + 3579) % 0x100_0000);
    assert_eq!(phase, WaitPhase::Wrapping);
    // Readings past the end but above the start do not end the wait.
    assert_eq!(wait_step(phase, start, end, 0xff_fff8), WaitPhase::Wrapping);
    let phase = wait_step(phase, start, end, 5);
    assert_eq!(phase, WaitPhase::Counting);
    assert_eq!(wait_step(phase, start, end, end - 1), WaitPhase::Counting);
    assert_eq!(wait_step(phase, start, end, end), WaitPhase::Done);
    // With a 32-bit timer (flags bit 8) the same wait does not wrap.
    let (end32, phase32) = wait_begin(0x100, start, 1);
    assert_eq!(end32, 0xff_fff0 + 3579);
    assert_eq!(phase32, WaitPhase::Counting);
}

/// The terminal's cursor, read from where its block blinks (blinking twice
/// leaves the window as it was).
fn cursor_of(term: &mut Terminal, win: &mut Window) -> Vector2D<i32> {
    let r = term.blink_cursor(win);
    term.blink_cursor(win);
    Vector2D::new((r.pos.x - 4) / 8, (r.pos.y - 4) / 16)
}

#[test]
fn terminal_lays_out_wide_characters() {
    let font = BitmapFont::new(vec![[0xffu8; 16]; 256]).unwrap();
    let w = (8 * COLUMNS + 16) as u32;
    let h = (16 * ROWS + 36) as u32;
    let mut win = Window::new_toplevel(w, h, PixelFormat::Bgr, "term", &font);
    let mut term = Terminal::new(1, 2, true, &mut win, &font);
    assert_eq!(cursor_of(&mut term, &mut win), Vector2D::new(1, 0));
    // A wide character is left for the caller at its cell and takes two.
    assert_eq!(term.put_char(&mut win, '\u{3042}', &font), Some(Vector2D::new(12, 4)));
    assert_eq!(cursor_of(&mut term, &mut win), Vector2D::new(3, 0));
    // An ASCII character is drawn here and takes one.
    assert_eq!(term.put_char(&mut win, 'a', &font), None);
    assert_eq!(cursor_of(&mut term, &mut win), Vector2D::new(4, 0));
    assert_eq!(term.put_char(&mut win, '\n', &font), None);
    assert_eq!(cursor_of(&mut term, &mut win), Vector2D::new(0, 1));
    // Fill the line up to column 59: a wide character no longer fits.
    for _ in 0..59 {
        assert_eq!(term.put_char(&mut win, 'x', &font), None);
    }
    assert_eq!(cursor_of(&mut term, &mut win), Vector2D::new(59, 1));
    assert_eq!(term.put_char(&mut win, '\u{3042}', &font), Some(Vector2D::new(4, 36)));
    assert_eq!(cursor_of(&mut term, &mut win), Vector2D::new(2, 2));
}

#[test]
fn terminal_without_window_puts_nothing() {
    let font = BitmapFont::new(vec![[0u8; 16]; 256]).unwrap();
    let mut win = Window::new_toplevel(64, 40, PixelFormat::Bgr, "n", &font);
    let mut term = Terminal::new(1, 2, false, &mut win, &font);
    assert_eq!(term.put_char(&mut win, '\u{3042}', &font), None);
    assert_eq!(cursor_of(&mut term, &mut win), Vector2D::new(0, 0));
}

#[test]
fn input_key_redraws_the_cell_at_the_cursor() {
    let font = BitmapFont::new(vec![[0u8; 16]; 256]).unwrap();
    let mut win = Window::new_toplevel(64, 40, PixelFormat::Bgr, "n", &font);
    let mut term = Terminal::new(1, 2, false, &mut win, &font);
    term.input_key(&mut win, 0, 0, b'a', &font);
    term.input_key(&mut win, 0, 0, b'b', &font);
    term.input_key(&mut win, 0, 0, 0x08, &font);
    match term.input_key(&mut win, 0, 0, b'c', &font) {
        KeyResult::Draw(r) => assert_eq!(r, Rectangle { pos: Vector2D::new(12, 4), size: Vector2D::new(16, 16) }),
        KeyResult::Execute(_) => panic!("a letter is drawn, not carried out"),
    }
}

#[test]
fn terminal_task_handles_its_messages() {
    let font = BitmapFont::new(vec![[0u8; 16]; 256]).unwrap();
    let w = (8 * COLUMNS + 16) as u32;
    let h = (16 * ROWS + 36) as u32;
    let mut win = Window::new_toplevel(w, h, PixelFormat::Bgr, "term", &font);
    let mut term = Terminal::new(7, 3, true, &mut win, &font);
    let mut active = true;
    // A timeout blinks the cursor at (1, 0) and sets the next blink.
    let msg = Message::from_type(MessageType::TimerTimeout { timeout: 100, value: 1 });
    let (timer, step) = terminal_on_message(&mut term, &mut win, &mut active, &msg, 0, &font);
    let timer = timer.unwrap();
    assert_eq!((timer.timeout(), timer.value(), timer.task_id()), (150, 1, 7));
    match step {
        TerminalStep::Send(m) => assert_eq!(m.ty, MessageType::Layer {
            op: LayerOperation::DrawArea, layer_id: 3, pos: Vector2D::new(16, 28), size: Vector2D::new(7, 15) }),
        _ => panic!("a blink is redrawn"),
    }
    // A key press redraws the cell it was typed in.
    let key = |ascii: u8, press: bool| Message::from_type(MessageType::KeyPush { modifier: 0, keycode: 0, ascii, press });
    let (timer, step) = terminal_on_message(&mut term, &mut win, &mut active, &key(b'l', true), 0, &font);
    assert!(timer.is_none());
    match step {
        TerminalStep::Send(m) => assert_eq!(m.ty, MessageType::Layer {
            op: LayerOperation::DrawArea, layer_id: 3, pos: Vector2D::new(16, 28), size: Vector2D::new(16, 16) }),
        _ => panic!("a letter is redrawn"),
    }
    let (_, step) = terminal_on_message(&mut term, &mut win, &mut active, &key(b's', false), 0, &font);
    assert!(matches!(step, TerminalStep::Idle));
    let (_, step) = terminal_on_message(&mut term, &mut win, &mut active, &key(b'\n', true), 0, &font);
    match step {
        TerminalStep::Execute(cmd) => assert_eq!(cmd, b"l".to_vec()),
        _ => panic!("a newline hands the line out"),
    }
    // Deactivation stops the blinking; the timer is set from the tick.
    let msg = Message::from_type(MessageType::WindowActive { activate: false });
    let (timer, step) = terminal_on_message(&mut term, &mut win, &mut active, &msg, 500, &font);
    assert!(!active);
    assert_eq!(timer.unwrap().timeout(), 550);
    assert!(matches!(step, TerminalStep::Idle));
    let msg = Message::from_type(MessageType::TimerTimeout { timeout: 550, value: 1 });
    let (timer, step) = terminal_on_message(&mut term, &mut win, &mut active, &msg, 0, &font);
    assert!(timer.is_none());
    assert!(matches!(step, TerminalStep::Idle));
}

fn pci_device(base: u8, sub: u8, interface: u8, vendor_id: u16) -> Device {
    Device { bus: 0, device: 0, function: 0, header_type: 0, class_code: ClassCode { base, sub, interface }, vendor_id }
}

#[test]
fn xhc_prefers_intel() {
    let other = pci_device(0x0c, 0x03, 0x30, 0x1033);
    let intel = pci_device(0x0c, 0x03, 0x30, 0x8086);
    let ehci = pci_device(0x0c, 0x03, 0x20, 0x8086);
    let bridge = pci_device(0x06, 0x04, 0x00, 0x8086);
    assert_eq!(find_xhc(&vec![bridge, other, intel, other, intel]), Some(2));
    assert_eq!(find_xhc(&vec![other, bridge, other, ehci]), Some(2));
    assert_eq!(find_xhc(&vec![bridge, ehci]), None);
    assert_eq!(find_xhc(&vec![]), None);
    assert!(intel.class_code.match_class(0x0c, 0x03, 0x30));
    assert!(ehci.class_code.match_base_sub(0x0c, 0x03));
    assert!(!ehci.class_code.match_class(0x0c, 0x03, 0x30));
    assert!(bridge.class_code.match_base(0x06));
}

#[test]
fn put_char_lays_out_ascii_as_print_does() {
    let font = BitmapFont::new(vec![[0x81u8; 16]; 256]).unwrap();
    let w = (8 * COLUMNS + 16) as u32;
    let h = (16 * ROWS + 36) as u32;
    let mut win1 = Window::new_toplevel(w, h, PixelFormat::Bgr, "term", &font);
    let mut win2 = Window::new_toplevel(w, h, PixelFormat::Bgr, "term", &font);
    let mut t1 = Terminal::new(1, 2, true, &mut win1, &font);
    let mut t2 = Terminal::new(1, 2, true, &mut win2, &font);
    let text = "ab\ncd";
    t1.print(&mut win1, text.as_bytes(), &font);
    t2.draw_cursor(&mut win2, false);
    for c in text.chars() {
        assert_eq!(t2.put_char(&mut win2, c, &font), None);
    }
    t2.draw_cursor(&mut win2, true);
    assert_eq!(cursor_of(&mut t1, &mut win1), Vector2D::new(2, 1));
    assert_eq!(cursor_of(&mut t2, &mut win2), Vector2D::new(2, 1));
    for y in 0..(h as i32) {
        for x in 0..(w as i32) {
            assert_eq!(win1.base().at(Vector2D::new(x, y)), win2.base().at(Vector2D::new(x, y)));
        }
    }
}
