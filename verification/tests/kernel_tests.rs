use mikan_os::collections::HashMap;
use mikan_os::command::{memstat_text, stack_size_text};
use mikan_os::error::{Code, Error};
use mikan_os::file::FileDescriptor;
use mikan_os::font::BitmapFont;
use mikan_os::frame_buffer::{FrameBuffer, FrameBufferConfig, PixelFormat};
use mikan_os::graphics::{PixelColor, Rectangle, Vector2D};
use mikan_os::layer::LayerManager;
use mikan_os::memory_manager::MemoryStat;
use mikan_os::mouse::MouseState;
use mikan_os::paging::setup_indentity_page_table;
use mikan_os::pci::{lspci_output, ClassCode, Device};
use mikan_os::task::Task;
use mikan_os::window::WindowBase;
use mikan_os::window::Window;

fn screen(w: usize, h: usize) -> FrameBuffer {
    FrameBuffer::new(FrameBufferConfig {
        frame_buffer: 0,
        pixels_per_scan_line: w,
        horizontal_resolution: w,
        vertical_resolution: h,
        pixel_format: PixelFormat::Bgr,
    })
    .unwrap()
}

#[test]
fn error_text_names_code_place_and_message() {
    let e = Error::new(Code::Full, "", "a.rs", 12);
    assert_eq!(e.text(), b"Full in a.rs at 12".to_vec());
    let e = Error::new(Code::NoSuchEntry, "oops", "k.rs", 7);
    assert_eq!(e.text(), b"NoSuchEntry in k.rs at 7:\n    oops".to_vec());
}

#[test]
fn lspci_lines() {
    let d = Device {
        bus: 0,
        device: 0x1f,
        function: 3,
        header_type: 0x80,
        class_code: ClassCode { base: 0x0c, sub: 0x03, interface: 0x30 },
        vendor_id: 0x8086,
    };
    let e = Device { bus: 2, device: 0, function: 0, header_type: 0, class_code: ClassCode { base: 6, sub: 4, interface: 0 }, vendor_id: 0x1b36 };
    assert_eq!(
        lspci_output(&vec![d, e]),
        b"00:1f.3 vend=8086 head=80 class=0c.03:30\n02:00.0 vend=1b36 head=00 class=06.04:00\n".to_vec()
    );
    assert_eq!(lspci_output(&vec![]), Vec::<u8>::new());
}

#[test]
fn memstat_and_stack_size_texts() {
    let stat = MemoryStat { allocated_frames: 512, total_frames: 1000 };
    assert_eq!(
        memstat_text(&stat),
        b"Phys used : 512 frames (2 MiB)\nPhys total: 1000 frames (3 MiB)\n".to_vec()
    );
    assert_eq!(stack_size_text(8 << 20), b"stack_size: 8192 KiB\n".to_vec());
    assert_eq!(stack_size_text(1000), b"stack_size: 0 KiB\n".to_vec());
}

#[test]
fn identity_page_table() {
    let t = setup_indentity_page_table(0x2000, 0x10_0000);
    assert_eq!(t.pml4[0], 0x2003);
    assert!(t.pml4[1..].iter().all(|&e| e == 0));
    assert_eq!(t.pdp[0], 0x10_0003);
    assert_eq!(t.pdp[63], 0x10_0000 + 63 * 4096 + 3);
    assert_eq!(t.pdp[64], 0);
    assert_eq!(t.directories[0], 0x83);
    assert_eq!(t.directories[1], 0x20_0083);
    assert_eq!(t.directories[512 * 2 + 3], (2u64 << 30) + (3 << 21) + 0x83);
    assert_eq!(t.directories.len(), 64 * 512);
}

#[test]
fn task_files_start_empty_and_hold_descriptors() {
    let mut t = Task::new(1, 0x1000);
    assert_eq!(t.files().cap(), 0);
    assert!(t.files().get(&3).is_none());
    let fd = FileDescriptor {
        entry_cluster: 2,
        entry_index: 0,
        rd_off: 0,
        rd_cluster: 5,
        rd_cluster_off: 0,
        wr_off: 0,
        wr_cluster: 5,
        wr_cluster_off: 0,
    };
    assert!(t.files_mut().insert(3, fd).is_none());
    assert_eq!(t.files().get(&3).unwrap().rd_cluster, 5);
    assert_eq!(t.id(), 1);
}

#[test]
fn hash_map_capacity_grows_by_doubling() {
    let mut m: HashMap<u32, u32> = HashMap::new();
    assert_eq!(m.cap(), 0);
    m.insert(0, 0);
    assert_eq!(m.cap(), 16);
    for k in 1..12u32 {
        m.insert(k, k);
    }
    assert_eq!(m.cap(), 16);
    m.insert(12, 12);
    assert_eq!(m.cap(), 32);
    m.remove(&12);
    m.clear();
    assert_eq!(m.cap(), 32);
}

#[test]
fn transparent_window_draws_its_own_pixels_at_an_offset() {
    let tc = PixelColor::new(0, 0, 1);
    let mut w = WindowBase::new(4, 4, PixelFormat::Bgr);
    for y in 0..4 {
        for x in 0..4 {
            w.write(Vector2D::new(x, y), &PixelColor::new((10 * x + y) as u8, 0, 0));
        }
    }
    w.write(Vector2D::new(2, 2), &tc);
    w.set_transparent_color(Some(tc));
    let mut dst = screen(8, 8);
    let bg = PixelColor::new(9, 9, 9);
    dst.fill_rectangle(Vector2D::new(0, 0), Vector2D::new(8, 8), &bg);
    // The window at (-1, 1); only the area from (1, 2) of size 3 by 3.
    w.draw_to(&mut dst, Vector2D::new(-1, 1), &Rectangle { pos: Vector2D::new(1, 2), size: Vector2D::new(3, 3) });
    // Screen (1, 2) shows window pixel (2, 1).
    assert_eq!(dst.read(Vector2D::new(1, 2)), PixelColor::new(21, 0, 0));
    assert_eq!(dst.read(Vector2D::new(2, 4)), PixelColor::new(33, 0, 0));
    // Window pixel (2, 2) is transparent: screen (1, 3) keeps its color.
    assert_eq!(dst.read(Vector2D::new(1, 3)), bg);
    // Outside the area, and outside the window (column 3 lies beyond it).
    assert_eq!(dst.read(Vector2D::new(0, 2)), bg);
    assert_eq!(dst.read(Vector2D::new(3, 2)), bg);
    assert_eq!(dst.read(Vector2D::new(1, 5)), bg);
}

#[test]
fn mouse_press_drags_a_window_across_the_left_edge() {
    let font = BitmapFont::new(vec![[0u8; 16]; 256]).unwrap();
    let mut m = LayerManager::new(screen(64, 64));
    let mut win = Window::new_base(20, 30, PixelFormat::Bgr);
    win.set_transparent_color(Some(PixelColor::new(0, 0, 1)));
    let w = m.new_layer(win);
    let c = m.new_layer(Window::new_base(4, 4, PixelFormat::Bgr));
    m.layer(w).set_draggable(true);
    m.move_to(w, Vector2D::new(0, 5));
    m.move_to(c, Vector2D::new(5, 10));
    m.up_down(w, 0);
    m.up_down(c, 1);
    m.set_mouse_layer(c);
    let mut state = MouseState { layer_id: c, drag_layer_id: 0, previous_buttons: 0 };
    // The press on the title bar starts a drag and activates the window.
    let ev = state.mouse_observer(&mut m, 1, 0, 0, &font);
    assert_eq!(state.drag_layer_id, w);
    assert_eq!((ev.deactivated, ev.activated), (None, Some(w)));
    assert_eq!(m.get_active(), w);
    // Dragged left by 3: the window follows to x = -3.
    state.mouse_observer(&mut m, 1, -3, 0, &font);
    assert_eq!(m.find_layer(c).unwrap().pos(), Vector2D::new(2, 10));
    assert_eq!(m.find_layer(w).unwrap().pos(), Vector2D::new(-3, 5));
    // Release ends the drag.
    state.mouse_observer(&mut m, 0, 0, 0, &font);
    assert_eq!(state.drag_layer_id, 0);
    // A press below the title bar activates without dragging.
    m.move_to(c, Vector2D::new(5, 32));
    let ev = state.mouse_observer(&mut m, 1, 0, 0, &font);
    assert_eq!(state.drag_layer_id, 0);
    assert_eq!((ev.deactivated, ev.activated), (None, None));
    // A press on nothing leaves the active window.
    m.move_to(c, Vector2D::new(60, 60));
    state.mouse_observer(&mut m, 0, 0, 0, &font);
    let ev = state.mouse_observer(&mut m, 1, 0, 0, &font);
    assert_eq!((ev.deactivated, ev.activated), (None, None));
    assert_eq!(m.get_active(), w);
}

#[test]
fn page_offset_has_twelve_bits() {
    let mut a = mikan_os::paging::LinearAddress4Level { addr: 0x1234_5fff };
    assert_eq!(a.offset(), 0xfff);
    a.set_offset(0x800);
    assert_eq!(a.offset(), 0x800);
    assert_eq!(a.addr, 0x1234_5800);
}
