//! The mouse cursor: its picture, and what a mouse report does to the
//! layers (moving the cursor, activating and dragging windows).
use vstd::prelude::*;
use crate::font::BitmapFont;
use crate::frame_buffer::{in_rect, inside, small};
use crate::graphics::{PixelColor, Vector2D};
use std::collections::BTreeMap;
use crate::layer::{on_canvas, topmost_at, Layer, LayerManager, CANVAS};
use crate::message::{Message, MessageType};
use crate::error::Code;
use crate::task::TaskManager;
use crate::window::Window;

verus! {

broadcast use vstd::std_specs::btree::group_btree_axioms, vstd::laws_cmp::group_laws_cmp;

/// Width of the cursor picture.
pub const MOUSE_CURSOR_WIDTH: usize = 15;

/// Height of the cursor picture.
pub const MOUSE_CURSOR_HEIGHT: usize = 24;

/// The color that stands for "no cursor here".
pub fn mouse_transparent_color() -> (r: PixelColor)
    ensures
        r == (PixelColor { r: 0, g: 0, b: 1 }),
{
    PixelColor::new(0, 0, 1)
}

/// Row `y` of the cursor picture, two bits per pixel from the left: 1 for
/// the black outline, 2 for the white inside, 0 for transparent.
pub open spec fn cursor_row(y: int) -> u32 {
    if y == 0 { 0x1u32 } else if y == 1 { 0x5u32 } else if y == 2 { 0x19u32 } else if y == 3 { 0x69u32 }
    else if y == 4 { 0x1a9u32 } else if y == 5 { 0x6a9u32 } else if y == 6 { 0x1aa9u32 } else if y == 7 { 0x6aa9u32 }
    else if y == 8 { 0x1aaa9u32 } else if y == 9 { 0x6aaa9u32 } else if y == 10 { 0x1aaaa9u32 } else if y == 11 { 0x6aaaa9u32 }
    else if y == 12 { 0x1aaaaa9u32 } else if y == 13 { 0x6aaaaa9u32 } else if y == 14 { 0x15556aa9u32 } else if y == 15 { 0x6aa9u32 }
    else if y == 16 { 0x196a9u32 } else if y == 17 { 0x191a9u32 } else if y == 18 { 0x64069u32 } else if y == 19 { 0x64019u32 }
    else if y == 20 { 0x190005u32 } else if y == 21 { 0x190001u32 } else if y == 22 { 0x640000u32 } else { 0x540000u32 }
}

fn cursor_row_exec(y: usize) -> (r: u32)
    requires
        y < 24,
    ensures
        r == cursor_row(y as int),
{
    if y == 0 { 0x1 } else if y == 1 { 0x5 } else if y == 2 { 0x19 } else if y == 3 { 0x69 }
    else if y == 4 { 0x1a9 } else if y == 5 { 0x6a9 } else if y == 6 { 0x1aa9 } else if y == 7 { 0x6aa9 }
    else if y == 8 { 0x1aaa9 } else if y == 9 { 0x6aaa9 } else if y == 10 { 0x1aaaa9 } else if y == 11 { 0x6aaaa9 }
    else if y == 12 { 0x1aaaaa9 } else if y == 13 { 0x6aaaaa9 } else if y == 14 { 0x15556aa9 } else if y == 15 { 0x6aa9 }
    else if y == 16 { 0x196a9 } else if y == 17 { 0x191a9 } else if y == 18 { 0x64069 } else if y == 19 { 0x64019 }
    else if y == 20 { 0x190005 } else if y == 21 { 0x190001 } else if y == 22 { 0x640000 } else { 0x540000 }
}

/// The color of cursor pixel (`x`, `y`).
pub open spec fn cursor_color(x: int, y: int) -> PixelColor {
    let code = (cursor_row(y) >> ((2 * x) as u32)) & 3u32;
    if code == 1 {
        PixelColor { r: 0, g: 0, b: 0 }
    } else if code == 2 {
        PixelColor { r: 255, g: 255, b: 255 }
    } else {
        PixelColor { r: 0, g: 0, b: 1 }
    }
}

/// Draws the cursor picture with its top left corner at `pos` of the
/// window's drawing area.
pub fn draw_mouse_cursor(writer: &mut Window, pos: &Vector2D<i32>)
    requires
        old(writer).wf(),
        small(*pos),
        0 <= pos.x + old(writer).offset().x,
        0 <= pos.y + old(writer).offset().y,
        pos.x + old(writer).offset().x + 15 <= old(writer).base_spec().width_spec(),
        pos.y + old(writer).offset().y + 24 <= old(writer).base_spec().height_spec(),
    ensures
        final(writer).wf(),
        *final(writer) is Toplevel == *old(writer) is Toplevel,
        final(writer).size_spec() == old(writer).size_spec(),
        final(writer).offset() == old(writer).offset(),
        final(writer).base_spec().width_spec() == old(writer).base_spec().width_spec(),
        final(writer).base_spec().height_spec() == old(writer).base_spec().height_spec(),
        final(writer).base_spec().format_spec() == old(writer).base_spec().format_spec(),
        final(writer).base_spec().transparent_spec() == old(writer).base_spec().transparent_spec(),
        forall|x: int, y: int| inside(x, y, old(writer).base_spec().width_spec(), old(writer).base_spec().height_spec()) ==> #[trigger] final(writer).base_spec().pixel(x, y)
            == if in_rect(x - old(writer).offset().x, y - old(writer).offset().y, *pos, Vector2D { x: 15i32, y: 24i32 }) {
                cursor_color(x - old(writer).offset().x - pos.x, y - old(writer).offset().y - pos.y)
            } else {
                old(writer).base_spec().pixel(x, y)
            },
{
    let ghost ox = old(writer).offset().x;
    let ghost oy = old(writer).offset().y;
    let mut dy: usize = 0;
    while dy < MOUSE_CURSOR_HEIGHT
        invariant
            writer.wf(),
            *writer is Toplevel == *old(writer) is Toplevel,
            writer.size_spec() == old(writer).size_spec(),
            writer.offset() == old(writer).offset(),
            ox == writer.offset().x,
            oy == writer.offset().y,
            writer.base_spec().width_spec() == old(writer).base_spec().width_spec(),
            writer.base_spec().height_spec() == old(writer).base_spec().height_spec(),
            writer.base_spec().format_spec() == old(writer).base_spec().format_spec(),
            writer.base_spec().transparent_spec() == old(writer).base_spec().transparent_spec(),
            small(*pos),
            0 <= pos.x + ox,
            0 <= pos.y + oy,
            pos.x + ox + 15 <= old(writer).base_spec().width_spec(),
            pos.y + oy + 24 <= old(writer).base_spec().height_spec(),
            dy <= 24,
            forall|x: int, y: int| inside(x, y, old(writer).base_spec().width_spec(), old(writer).base_spec().height_spec()) ==> #[trigger] writer.base_spec().pixel(x, y)
                == if in_rect(x - ox, y - oy, *pos, Vector2D { x: 15i32, y: dy as i32 }) {
                    cursor_color(x - ox - pos.x, y - oy - pos.y)
                } else {
                    old(writer).base_spec().pixel(x, y)
                },
        decreases 24 - dy,
    {
        let row = cursor_row_exec(dy);
        let mut dx: usize = 0;
        while dx < MOUSE_CURSOR_WIDTH
            invariant
                writer.wf(),
                *writer is Toplevel == *old(writer) is Toplevel,
                writer.size_spec() == old(writer).size_spec(),
                writer.offset() == old(writer).offset(),
                ox == writer.offset().x,
                oy == writer.offset().y,
                writer.base_spec().width_spec() == old(writer).base_spec().width_spec(),
                writer.base_spec().height_spec() == old(writer).base_spec().height_spec(),
                writer.base_spec().format_spec() == old(writer).base_spec().format_spec(),
                writer.base_spec().transparent_spec() == old(writer).base_spec().transparent_spec(),
                small(*pos),
                0 <= pos.x + ox,
                0 <= pos.y + oy,
                pos.x + ox + 15 <= old(writer).base_spec().width_spec(),
                pos.y + oy + 24 <= old(writer).base_spec().height_spec(),
                dy < 24,
                dx <= 15,
                row == cursor_row(dy as int),
                forall|x: int, y: int| inside(x, y, old(writer).base_spec().width_spec(), old(writer).base_spec().height_spec()) ==> #[trigger] writer.base_spec().pixel(x, y)
                    == if in_rect(x - ox, y - oy, *pos, Vector2D { x: 15i32, y: dy as i32 })
                        || (y - oy == pos.y + dy && pos.x <= x - ox < pos.x + dx) {
                        cursor_color(x - ox - pos.x, y - oy - pos.y)
                    } else {
                        old(writer).base_spec().pixel(x, y)
                    },
            decreases 15 - dx,
        {
            let code = (row >> ((2 * dx) as u32)) & 3;
            let c = if code == 1 {
                PixelColor::new(0, 0, 0)
            } else if code == 2 {
                PixelColor::new(255, 255, 255)
            } else {
                mouse_transparent_color()
            };
            proof { writer.base_spec().lemma_dims(); }
            let p = Vector2D::new(pos.x + dx as i32, pos.y + dy as i32);
            writer.write(p, &c);
            dx = dx + 1;
        }
        dy = dy + 1;
    }
}

/// What the mouse handler remembers between reports: the cursor's layer,
/// the layer being dragged (0: none) and the buttons of the last report.
pub struct MouseState {
    pub layer_id: u32,
    pub drag_layer_id: u32,
    pub previous_buttons: u8,
}

/// What a mouse report asks the caller to send: the layers that lost and
/// gained activity, and a move message for the active layer's task.
pub struct MouseEvents {
    pub deactivated: Option<u32>,
    pub activated: Option<u32>,
    pub mouse_move: Option<(u32, MessageType)>,
}

/// The cursor's new position: the old one moved by the report, kept
/// between the origin and the screen's size.
pub open spec fn clamped(oldpos: Vector2D<i32>, dx: i8, dy: i8, w: int, h: int) -> Vector2D<int> {
    let nx = oldpos.x + dx;
    let ny = oldpos.y + dy;
    let mx = if nx <= w { nx } else { w };
    let my = if ny <= h { ny } else { h };
    Vector2D { x: if mx >= 0 { mx } else { 0 }, y: if my >= 0 { my } else { 0 } }
}

/// Whether `v` is `target` kept between 0 and `limit`: `target` itself
/// when it lies there, else the nearer end.
pub open spec fn kept_within(v: int, target: int, limit: int) -> bool {
    &&& 0 <= target <= limit ==> v == target
    &&& target < 0 ==> v == 0
    &&& target > limit ==> v == limit
}

/// The cursor moves by the report and stays on the screen: across within
/// `[0, w]` (the screen's width), down within `[0, h]` (its height); a move
/// that stays on the screen lands exactly where it points.
pub proof fn lemma_clamped_on_screen(oldpos: Vector2D<i32>, dx: i8, dy: i8, w: int, h: int)
    requires
        w >= 0,
        h >= 0,
    ensures
        kept_within(clamped(oldpos, dx, dy, w, h).x, oldpos.x + dx, w),
        kept_within(clamped(oldpos, dx, dy, w, h).y, oldpos.y + dy, h),
        0 <= clamped(oldpos, dx, dy, w, h).x <= w,
        0 <= clamped(oldpos, dx, dy, w, h).y <= h,
{
}

/// The events `LayerManager::activate(id)` reports when the active layer
/// was `active`: none when it stays, else the layer that lost activity and
/// the one that gained it (0 standing for none).
pub open spec fn activation_events(active: u32, id: u32) -> (Option<u32>, Option<u32>) {
    if active == id {
        (None, None)
    } else {
        (if active > 0 { Some(active) } else { None }, if id > 0 { Some(id) } else { None })
    }
}

/// Moving layer `id` leaves what lies under a point, other than `id`, as
/// it was.
pub proof fn lemma_topmost_ignores_excluded(stack: Seq<u32>, layers: Map<u32, Layer>, l: Layer, x: int, y: int, id: u32)
    ensures
        topmost_at(stack, layers.insert(id, l), x, y, id) == topmost_at(stack, layers, x, y, id),
    decreases stack.len(),
{
    if stack.len() > 0 {
        lemma_topmost_ignores_excluded(stack.drop_last(), layers, l, x, y, id);
    }
}

impl MouseState {
    /// What the handler needs of its state: the cursor's layer exists, and
    /// the dragged layer, if any, exists and is another layer.
    pub open spec fn wf(&self, manager: LayerManager) -> bool {
        &&& manager.layers_spec().contains_key(self.layer_id)
        &&& self.drag_layer_id != self.layer_id
        &&& self.drag_layer_id == 0 || manager.layers_spec().contains_key(self.drag_layer_id)
    }

    /// Handles a mouse report of `buttons` and a move by (`dx`, `dy`): moves
    /// the cursor layer; when the left button goes down, activates the
    /// topmost window under the cursor if it is draggable (dragging it when
    /// the press is on its title bar) and no window otherwise; while the
    /// button stays down, moves the dragged window with the cursor; when it
    /// goes up, stops dragging. Unless a window is dragged, a move is
    /// reported to the active layer. Windows are kept within `CANVAS` of
    /// the origin (the range the drawing arithmetic is proved for), so a
    /// drag that would take one further leaves it in place.
    pub fn mouse_observer(&mut self, manager: &mut LayerManager, buttons: u8, displacement_x: i8, displacement_y: i8, font: &BitmapFont) -> (r: MouseEvents)
        requires
            old(manager).wf(),
            font.wf(),
            old(self).wf(*old(manager)),
            old(manager).active_spec() == 0 || old(manager).layers_spec().contains_key(old(manager).active_spec()),
            old(manager).stack_spec().len() < 0x7fff_ffff,
        ensures
            final(manager).wf(),
            final(self).wf(*final(manager)),
            final(self).layer_id == old(self).layer_id,
            final(self).previous_buttons == buttons,
            final(manager).active_spec() == 0 || final(manager).layers_spec().contains_key(final(manager).active_spec()),
            ({
                let oldpos = old(manager).layers_spec()[old(self).layer_id].pos_spec();
                let p = clamped(oldpos, displacement_x, displacement_y,
                    old(manager).screen_spec().width_spec(), old(manager).screen_spec().height_spec());
                let prev = old(self).previous_buttons & 1 == 1;
                let left = buttons & 1 == 1;
                let t = topmost_at(old(manager).stack_spec(), old(manager).layers_spec(), p.x, p.y, old(self).layer_id);
                &&& final(manager).layers_spec()[old(self).layer_id].pos_spec() == (Vector2D { x: p.x as i32, y: p.y as i32 })
                &&& kept_within(final(manager).layers_spec()[old(self).layer_id].pos_spec().x as int, oldpos.x + displacement_x,
                    old(manager).screen_spec().width_spec())
                &&& kept_within(final(manager).layers_spec()[old(self).layer_id].pos_spec().y as int, oldpos.y + displacement_y,
                    old(manager).screen_spec().height_spec())
                &&& (prev && !left) ==> final(self).drag_layer_id == 0
                &&& (!prev && !left) ==> final(self).drag_layer_id == old(self).drag_layer_id
                &&& (prev && left) ==> final(self).drag_layer_id == old(self).drag_layer_id
                &&& (!prev && left) ==> match t {
                    None => {
                        &&& final(self).drag_layer_id == old(self).drag_layer_id
                        &&& r.deactivated is None && r.activated is None
                        &&& final(manager).active_spec() == old(manager).active_spec()
                    },
                    Some(id) => {
                        let l = old(manager).layers_spec()[id];
                        let target = if l.draggable_spec() { id } else { 0 };
                        &&& final(self).drag_layer_id == if l.draggable_spec() && p.y - l.pos_spec().y < 24 { id } else { old(self).drag_layer_id }
                        &&& (r.deactivated, r.activated) == activation_events(old(manager).active_spec(), target)
                        &&& final(manager).active_spec() == target
                    },
                }
                &&& (prev && left && old(self).drag_layer_id != 0) ==> {
                    let d = old(self).drag_layer_id;
                    let dp = old(manager).layers_spec()[d].pos_spec();
                    let np = Vector2D { x: dp.x + (p.x - oldpos.x), y: dp.y + (p.y - oldpos.y) };
                    final(manager).layers_spec()[d].pos_spec() == if old(manager).can_place(d, np) {
                        Vector2D { x: np.x as i32, y: np.y as i32 }
                    } else {
                        dp
                    }
                }
                &&& !(!prev && left) ==> r.deactivated is None && r.activated is None
                &&& r.mouse_move matches Some(mm) ==> final(self).drag_layer_id == 0 && final(manager).active_spec() != 0
                    && mm.0 == final(manager).active_spec()
                    && (p.x != oldpos.x || p.y != oldpos.y)
            }),
            final(manager).layers_spec().dom() == old(manager).layers_spec().dom(),
            final(manager).mouse_spec() == old(manager).mouse_spec(),
    {
        let layer_id = self.layer_id;
        proof {
            manager.lemma_layer_ok(layer_id);
            manager.lemma_screen_dims();
        }
        let oldpos = match manager.find_layer(layer_id) {
            Some(l) => l.pos(),
            None => vstd::pervasive::unreached(),
        };
        let newpos = Vector2D::new(oldpos.x + displacement_x as i32, oldpos.y + displacement_y as i32);
        let newpos = Vector2D::element_min(&newpos, &manager.screen_size());
        let mouse_position = Vector2D::element_max(&newpos, &Vector2D::new(0, 0));
        let posdiff = Vector2D::new(mouse_position.x - oldpos.x, mouse_position.y - oldpos.y);
        manager.move_to(layer_id, mouse_position);
        let ghost m1 = *manager;

        let previous_left_pressed = self.previous_buttons & 1 == 1;
        let left_pressed = buttons & 1 == 1;
        let mut deactivated: Option<u32> = None;
        let mut activated: Option<u32> = None;
        if !previous_left_pressed && left_pressed {
            proof {
                lemma_topmost_ignores_excluded(old(manager).stack_spec(), old(manager).layers_spec(),
                    manager.layers_spec()[layer_id], mouse_position.x as int, mouse_position.y as int, layer_id);
                assert(manager.layers_spec() == old(manager).layers_spec().insert(layer_id, manager.layers_spec()[layer_id]));
            }
            match manager.find_layer_by_position(&mouse_position, layer_id) {
                Some(id) => {
                    proof {
                        lemma_topmost_shown(manager.stack_spec(), manager.layers_spec(), mouse_position.x as int, mouse_position.y as int, layer_id);
                        manager.lemma_stack_layers();
                        manager.lemma_layer_ok(id);
                    }
                    let (draggable, lpos) = match manager.find_layer(id) {
                        Some(l) => (l.is_draggable(), l.pos()),
                        None => vstd::pervasive::unreached(),
                    };
                    if draggable {
                        let y_layer = mouse_position.y - lpos.y;
                        if y_layer < 24 {
                            self.drag_layer_id = id;
                        }
                        let (d, a) = manager.activate(id, font);
                        deactivated = d;
                        activated = a;
                    } else {
                        let (d, a) = manager.activate(0, font);
                        deactivated = d;
                        activated = a;
                    }
                },
                None => {},
            }
        } else if previous_left_pressed && left_pressed {
            let drag = self.drag_layer_id;
            if drag != 0 {
                if manager.can_place_exec(drag, posdiff) {
                    manager.move_relative(drag, posdiff);
                }
            }
        } else if previous_left_pressed && !left_pressed {
            self.drag_layer_id = 0;
        }

        let mut mouse_move: Option<(u32, MessageType)> = None;
        if self.drag_layer_id == 0 {
            let act = manager.get_active();
            if act != 0 && (posdiff.x != 0 || posdiff.y != 0) {
                match manager.find_layer(act) {
                    Some(layer) => {
                        let lp = layer.pos();
                        proof { manager.lemma_layer_ok(act); }
                        mouse_move = Some((act, MessageType::MouseMove {
                            x: newpos.x - lp.x,
                            y: newpos.y - lp.y,
                            dx: posdiff.x,
                            dy: posdiff.y,
                            buttons,
                        }));
                    },
                    None => {},
                }
            }
        }
        self.previous_buttons = buttons;
        proof {
            let p = clamped(oldpos, displacement_x, displacement_y,
                old(manager).screen_spec().width_spec(), old(manager).screen_spec().height_spec());
            assert(p.x == mouse_position.x && p.y == mouse_position.y);
            old(manager).lemma_screen_dims();
            lemma_clamped_on_screen(oldpos, displacement_x, displacement_y,
                old(manager).screen_spec().width_spec(), old(manager).screen_spec().height_spec());
            assert(m1.layers_spec().contains_key(layer_id));
        }
        MouseEvents { deactivated, activated, mouse_move }
    }
}

/// The layer `topmost_at` finds is shown.
proof fn lemma_topmost_shown(stack: Seq<u32>, layers: Map<u32, crate::layer::Layer>, x: int, y: int, exclude_id: u32)
    ensures
        crate::layer::topmost_at(stack, layers, x, y, exclude_id) matches Some(id) ==> stack.contains(id) && id != exclude_id,
    decreases stack.len(),
{
    if stack.len() > 0 {
        lemma_topmost_shown(stack.drop_last(), layers, x, y, exclude_id);
        match crate::layer::topmost_at(stack.drop_last(), layers, x, y, exclude_id) {
            Some(id) => {
                let k = choose|k: int| 0 <= k < stack.drop_last().len() && stack.drop_last()[k] == id;
                assert(stack[k] == id);
            },
            None => {},
        }
        assert(stack[stack.len() - 1] == stack.last());
    }
}

/// The mouse-move message for the task of the active window, and that
/// task: the cursor's position `newpos` relative to the window, the move
/// `posdiff` and the buttons. None when no window is active, the active
/// one belongs to no task, or the cursor did not move.
pub open spec fn mouse_move_target(manager: LayerManager, layer_task: Map<u32, u64>, newpos: Vector2D<i32>,
    posdiff: Vector2D<i32>, buttons: u8) -> Option<(u64, Message)> {
    let act = manager.active_spec();
    if act == 0 || !manager.layers_spec().contains_key(act) || !layer_task.contains_key(act)
        || (posdiff.x == 0 && posdiff.y == 0) {
        None
    } else {
        let p = manager.layers_spec()[act].pos_spec();
        Some((layer_task[act], Message {
            ty: MessageType::MouseMove {
                x: (newpos.x - p.x) as i32,
                y: (newpos.y - p.y) as i32,
                dx: posdiff.x,
                dy: posdiff.y,
                buttons,
            },
            src_task: 0,
        }))
    }
}

/// Sends the mouse-move message of `mouse_move_target` to its task;
/// nothing happens when there is none, or no such task runs.
pub fn send_mouse_message(manager: &LayerManager, layer_task: &BTreeMap<u32, u64>, tasks: &mut TaskManager,
    newpos: Vector2D<i32>, posdiff: Vector2D<i32>, buttons: u8)
    requires
        manager.wf(),
        old(tasks).wf(),
        on_canvas(newpos),
    ensures
        final(tasks).wf(),
        match mouse_move_target(*manager, layer_task@, newpos, posdiff, buttons) {
            None => *final(tasks) == *old(tasks),
            Some((id, msg)) => if old(tasks).has_task(id) {
                old(tasks).delivered(*final(tasks), id, msg)
            } else {
                *final(tasks) == *old(tasks)
            },
        },
{
    let act = manager.get_active();
    if act == 0 {
        return;
    }
    let layer = match manager.find_layer(act) {
        Some(l) => l,
        None => return,
    };
    let task_id = match layer_task.get(&act) {
        Some(t) => *t,
        None => return,
    };
    if posdiff.x == 0 && posdiff.y == 0 {
        return;
    }
    proof { manager.lemma_layer_ok(act); }
    let p = layer.pos();
    let msg = Message {
        ty: MessageType::MouseMove { x: newpos.x - p.x, y: newpos.y - p.y, dx: posdiff.x, dy: posdiff.y, buttons },
        src_task: 0,
    };
    let _ = tasks.send_message(task_id, msg);
}

/// Sends the task of window layer `layer_id` a message that the window
/// became active (or not); fails with `NoSuchTask` when the layer belongs
/// to no task or the task does not run.
pub fn send_window_active_message(layer_task: &BTreeMap<u32, u64>, tasks: &mut TaskManager, layer_id: u32, activate: bool) -> (r: Result<(), Code>)
    requires
        old(tasks).wf(),
    ensures
        final(tasks).wf(),
        ({
            let msg = Message { ty: MessageType::WindowActive { activate }, src_task: 0 };
            &&& r is Ok <==> layer_task@.contains_key(layer_id) && old(tasks).has_task(layer_task@[layer_id])
            &&& r matches Err(e) ==> e == Code::NoSuchTask && *final(tasks) == *old(tasks)
            &&& r is Ok ==> old(tasks).delivered(*final(tasks), layer_task@[layer_id], msg)
        }),
{
    let task_id = match layer_task.get(&layer_id) {
        Some(t) => *t,
        None => return Err(Code::NoSuchTask),
    };
    tasks.send_message(task_id, Message { ty: MessageType::WindowActive { activate }, src_task: 0 })
}

} // verus!
