use std::collections::BTreeMap;

use mikan_os::error::Code;
use mikan_os::font::BitmapFont;
use mikan_os::frame_buffer::{FrameBuffer, FrameBufferConfig, PixelFormat};
use mikan_os::graphics::Vector2D;
use mikan_os::layer::LayerManager;
use mikan_os::message::{Message, MessageType};
use mikan_os::mouse::{send_mouse_message, send_window_active_message};
use mikan_os::segment::{setup_segments, SegmentDescriptor};
use mikan_os::task::{Task, TaskContext, TaskManager};
use mikan_os::timer::{lapic_timer_on_interrupt, Timer, TimerManager, TASK_TIMER_VALUE};
use mikan_os::window::Window;

fn two_tasks() -> TaskManager {
    let mut tasks = TaskManager::new();
    assert_eq!(tasks.new_task(0x1000), 1);
    assert_eq!(tasks.new_task(0x2000), 2);
    assert_eq!(tasks.wake_up(1, 3), Ok(()));
    assert_eq!(tasks.wake_up(2, 3), Ok(()));
    tasks
}

fn msg(ty: MessageType) -> Message {
    Message { ty, src_task: 0 }
}

#[test]
fn timers_fire_in_timeout_order() {
    let mut tm = TimerManager::new();
    tm.add_timer(Timer::new(3, 7, 1));
    tm.add_timer(Timer::new(1, 5, 2));
    assert_eq!(tm.tick(), (false, vec![Timer::new(1, 5, 2)]));
    assert_eq!(tm.tick(), (false, vec![]));
    assert_eq!(tm.tick(), (false, vec![Timer::new(3, 7, 1)]));
    assert_eq!(tm.current_tick(), 3);
    assert_eq!(
        Timer::new(3, 7, 1).timeout_message(),
        msg(MessageType::TimerTimeout { timeout: 3, value: 7 })
    );
}

#[test]
fn task_timer_comes_back_every_period() {
    let mut tm = TimerManager::new();
    tm.add_timer(Timer::new(1, TASK_TIMER_VALUE, 0));
    assert_eq!(tm.tick(), (true, vec![]));
    assert_eq!(tm.tick(), (false, vec![]));
    assert_eq!(tm.tick(), (true, vec![]));
}

#[test]
fn timer_interrupt_switches_tasks() {
    let mut tm = TimerManager::new();
    tm.add_timer(Timer::new(1, TASK_TIMER_VALUE, 0));
    tm.add_timer(Timer::new(1, 9, 2));
    let mut tasks = two_tasks();
    let ctx = TaskContext::new();
    let (fired, switched) = lapic_timer_on_interrupt(&mut tm, &mut tasks, &ctx);
    assert_eq!(fired, vec![Timer::new(1, 9, 2)]);
    assert_eq!(switched, Some((1, 2)));
    assert_eq!(tasks.current_task(), 2);
    assert_eq!(tasks.receive_message(2), Some(msg(MessageType::TimerTimeout { timeout: 1, value: 9 })));
    assert_eq!(tasks.receive_message(2), None);
    let (fired, switched) = lapic_timer_on_interrupt(&mut tm, &mut tasks, &ctx);
    assert!(fired.is_empty());
    assert_eq!(switched, None);
}

#[test]
fn messages_reach_their_task() {
    let mut tasks = two_tasks();
    let m = msg(MessageType::KeyPush { modifier: 0, keycode: 4, ascii: b'a', press: true });
    assert_eq!(tasks.send_message(2, m), Ok(()));
    assert_eq!(tasks.send_message(9, m), Err(Code::NoSuchTask));
    assert_eq!(tasks.receive_message(2), Some(m));
    assert_eq!(tasks.receive_message(2), None);
    assert_eq!(tasks.receive_message(9), None);
}

#[test]
fn finish_then_wait() {
    let mut tasks = two_tasks();
    assert_eq!(tasks.current_task(), 1);
    assert_eq!(tasks.finish(7), 1);
    assert!(tasks.get_task(1).is_none());
    assert_eq!(tasks.current_task(), 2);
    assert_eq!(tasks.wait_finish(1), Ok(7));
    assert_eq!(tasks.wait_finish(5), Err(2));
}

#[test]
fn switching_rotates_the_queue() {
    let mut tasks = two_tasks();
    let ctx = TaskContext::new();
    assert_eq!(tasks.switch_task(&ctx), (1, 2));
    assert_eq!(tasks.switch_task(&ctx), (2, 1));
    assert_eq!(tasks.sleep(1), Ok(Some(1)));
    assert_eq!(tasks.current_task(), 2);
    assert_eq!(tasks.sleep(7), Err(Code::NoSuchTask));
}

#[test]
fn window_active_message_goes_to_the_layer_task() {
    let mut tasks = two_tasks();
    let mut layer_task = BTreeMap::new();
    layer_task.insert(5u32, 2u64);
    assert_eq!(send_window_active_message(&layer_task, &mut tasks, 5, true), Ok(()));
    assert_eq!(tasks.receive_message(2), Some(msg(MessageType::WindowActive { activate: true })));
    assert_eq!(send_window_active_message(&layer_task, &mut tasks, 6, false), Err(Code::NoSuchTask));
}

#[test]
fn mouse_move_goes_to_the_active_window_task() {
    let font = BitmapFont::new(vec![[0u8; 16]; 256]).unwrap();
    let fb = FrameBuffer::new(FrameBufferConfig {
        frame_buffer: 0,
        pixels_per_scan_line: 64,
        horizontal_resolution: 64,
        vertical_resolution: 64,
        pixel_format: PixelFormat::Bgr,
    })
    .unwrap();
    let mut m = LayerManager::new(fb);
    let a = m.new_layer(Window::new_base(8, 8, PixelFormat::Bgr));
    m.up_down(a, 0);
    m.move_to(a, Vector2D::new(10, 10));
    let mut tasks = two_tasks();
    let mut layer_task = BTreeMap::new();
    layer_task.insert(a, 1u64);
    send_mouse_message(&m, &layer_task, &mut tasks, Vector2D::new(15, 12), Vector2D::new(1, 0), 0);
    assert_eq!(tasks.receive_message(1), None);
    m.activate(a, &font);
    send_mouse_message(&m, &layer_task, &mut tasks, Vector2D::new(15, 12), Vector2D::new(1, 0), 1);
    assert_eq!(
        tasks.receive_message(1),
        Some(msg(MessageType::MouseMove { x: 5, y: 2, dx: 1, dy: 0, buttons: 1 }))
    );
    send_mouse_message(&m, &layer_task, &mut tasks, Vector2D::new(15, 12), Vector2D::new(0, 0), 1);
    assert_eq!(tasks.receive_message(1), None);
}

#[test]
fn descriptor_table_setup() {
    let mut gdt = vec![SegmentDescriptor::default(); 7];
    assert_eq!(setup_segments(&mut gdt, 0x1234_5678_9abc, 0x67), 55);
    assert_eq!(gdt[1].descriptor_privilege_level(), 0);
    assert!(gdt[1].long_mode());
    assert_eq!(gdt[2].descriptor_privilege_level(), 0);
    assert_eq!(gdt[3].descriptor_privilege_level(), 3);
    assert!(!gdt[3].long_mode());
    assert_eq!(gdt[4].descriptor_privilege_level(), 3);
    assert!(gdt[4].long_mode());
    assert_eq!(gdt[5].base(), 0x5678_9abc);
    // `limit` gives back the 20-bit limit the descriptor was made with.
    assert_eq!(gdt[5].limit(), 0x67);
    assert_eq!(gdt[6].limit(), 0x1234);
    assert_eq!(gdt[1].limit(), 0xf_ffff);
    assert_eq!(SegmentDescriptor::code_segment(0, 0xfffff, false, true, false, 0).limit(), 0xfffff);
    assert_eq!(SegmentDescriptor::data_segment(0, 0x12345, false, true, false, 3).limit(), 0x12345);
}

#[test]
fn new_task_stack_pointer_is_call_aligned() {
    let t = Task::new(3, 0x10000);
    assert_eq!(t.id(), 3);
    assert_eq!(t.context().rsp, 0xfff8);
    assert_eq!(t.context().rsp % 16, 8);
    assert_eq!(t.context().rip, 0);
}
