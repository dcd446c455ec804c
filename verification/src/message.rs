//! Messages that tasks send each other.
use vstd::prelude::*;
use crate::graphics::{Rectangle, Vector2D};

verus! {

/// What a layer message asks the layer manager to do.
#[derive(Clone, Copy, Debug, PartialEq, Eq, Structural)]
pub enum LayerOperation {
    Move,
    MoveRelative,
    Draw,
    DrawArea,
}

/// The body of a message.
#[derive(Clone, Copy, Debug, PartialEq, Eq, Structural)]
pub enum MessageType {
    InterruptXHCI,
    TimerTimeout { timeout: u64, value: i32 },
    KeyPush { modifier: u8, keycode: u8, ascii: u8, press: bool },
    Layer { op: LayerOperation, layer_id: u32, pos: Vector2D<i32>, size: Vector2D<i32> },
    LayerFinish,
    MouseMove { x: i32, y: i32, dx: i32, dy: i32, buttons: u8 },
    MouseButton { x: i32, y: i32, press: bool, button: i32 },
    WindowActive { activate: bool },
}

/// A message and the task that sent it (0 when the sender does not matter).
#[derive(Clone, Copy, Debug, PartialEq, Eq, Structural)]
pub struct Message {
    pub ty: MessageType,
    pub src_task: u64,
}

/// The layer message for `op` on layer `layer_id` with the given position
/// and size, sent by `task_id`.
pub open spec fn layer_message(task_id: u64, op: LayerOperation, layer_id: u32, pos: Vector2D<i32>, size: Vector2D<i32>) -> Message {
    Message { ty: MessageType::Layer { op, layer_id, pos, size }, src_task: task_id }
}

impl Message {
    /// Asks to move layer `layer_id` to `pos`.
    pub fn from_move(task_id: u64, layer_id: u32, pos: Vector2D<i32>) -> (m: Message)
        ensures
            m == layer_message(task_id, LayerOperation::Move, layer_id, pos, Vector2D { x: -1i32, y: -1i32 }),
    {
        Message {
            ty: MessageType::Layer { op: LayerOperation::Move, layer_id, pos, size: Vector2D::new(-1, -1) },
            src_task: task_id,
        }
    }

    /// Asks to move layer `layer_id` by `diff`.
    pub fn from_move_relative(task_id: u64, layer_id: u32, diff: Vector2D<i32>) -> (m: Message)
        ensures
            m == layer_message(task_id, LayerOperation::MoveRelative, layer_id, diff, Vector2D { x: -1i32, y: -1i32 }),
    {
        Message {
            ty: MessageType::Layer { op: LayerOperation::MoveRelative, layer_id, pos: diff, size: Vector2D::new(-1, -1) },
            src_task: task_id,
        }
    }

    /// Asks to redraw layer `layer_id` whole.
    pub fn from_draw(task_id: u64, layer_id: u32) -> (m: Message)
        ensures
            m == layer_message(task_id, LayerOperation::Draw, layer_id, Vector2D { x: 0i32, y: 0i32 }, Vector2D { x: -1i32, y: -1i32 }),
    {
        Message {
            ty: MessageType::Layer {
                op: LayerOperation::Draw,
                layer_id,
                pos: Vector2D::new(0, 0),
                size: Vector2D::new(-1, -1),
            },
            src_task: task_id,
        }
    }

    /// Asks to redraw the part `area` of layer `layer_id`.
    pub fn from_draw_area(task_id: u64, layer_id: u32, area: Rectangle<i32>) -> (m: Message)
        ensures
            m == layer_message(task_id, LayerOperation::DrawArea, layer_id, area.pos, area.size),
    {
        Message {
            ty: MessageType::Layer { op: LayerOperation::DrawArea, layer_id, pos: area.pos, size: area.size },
            src_task: task_id,
        }
    }

    /// A message with no particular sender.
    pub fn from_type(ty: MessageType) -> (m: Message)
        ensures
            m == (Message { ty, src_task: 0 }),
    {
        Message { ty, src_task: 0 }
    }
}

} // verus!
