//! Layers: windows placed on the screen, stacked in drawing order, and the
//! manager that composes them into a back buffer and copies that to the
//! screen.
use vstd::prelude::*;
use std::collections::BTreeMap;
use crate::font::BitmapFont;
use crate::frame_buffer::{in_rect, inside, small, FrameBuffer, FrameBufferConfig, PixelFormat, SMALL};
use crate::graphics::{add_fits, intersection_of, PixelColor, Rectangle, Vector2D};
use crate::message::LayerOperation;
use crate::window::Window;

verus! {

broadcast use vstd::std_specs::btree::group_btree_axioms, vstd::laws_cmp::group_laws_cmp;

/// Bound on layer positions, window sizes and drawing areas (2^26): a
/// quarter of `SMALL`, so that a position plus a size stays `small`.
pub const CANVAS: i32 = 0x400_0000;

/// Whether both components of `v` are at most `CANVAS` in size.
pub open spec fn on_canvas(v: Vector2D<i32>) -> bool {
    -CANVAS <= v.x <= CANVAS && -CANVAS <= v.y <= CANVAS
}

/// A window placed at a position on the screen.
pub struct Layer {
    pos: Vector2D<i32>,
    window: Window,
    dragable: bool,
}

impl Layer {
    pub closed spec fn pos_spec(&self) -> Vector2D<i32> {
        self.pos
    }

    pub closed spec fn window_spec(&self) -> Window {
        self.window
    }

    pub closed spec fn draggable_spec(&self) -> bool {
        self.dragable
    }

    /// A layer at the origin, not draggable.
    pub fn new(window: Window) -> (r: Self)
        ensures
            r.pos_spec() == (Vector2D { x: 0i32, y: 0i32 }),
            r.window_spec() == window,
            !r.draggable_spec(),
    {
        Layer { pos: Vector2D::new(0, 0), window, dragable: false }
    }

    /// The layer's window.
    pub fn window(&self) -> (r: &Window)
        ensures
            *r == self.window_spec(),
    {
        &self.window
    }

    /// The layer's window, to change in place.
    pub fn window_mut(&mut self) -> (r: &mut Window)
        ensures
            *r == old(self).window_spec(),
            final(self).window_spec() == *final(r),
            final(self).pos_spec() == old(self).pos_spec(),
            final(self).draggable_spec() == old(self).draggable_spec(),
    {
        &mut self.window
    }

    /// The layer's position.
    pub fn pos(&self) -> (r: Vector2D<i32>)
        ensures
            r == self.pos_spec(),
    {
        self.pos
    }

    /// Places the layer at `pos`.
    pub fn move_to(&mut self, pos: Vector2D<i32>)
        ensures
            final(self).pos_spec() == pos,
            final(self).window_spec() == old(self).window_spec(),
            final(self).draggable_spec() == old(self).draggable_spec(),
    {
        self.pos = pos;
    }

    /// Moves the layer by `pos_diff`.
    pub fn move_relative(&mut self, pos_diff: Vector2D<i32>)
        requires
            add_fits(old(self).pos_spec(), pos_diff),
        ensures
            final(self).pos_spec().x == old(self).pos_spec().x + pos_diff.x,
            final(self).pos_spec().y == old(self).pos_spec().y + pos_diff.y,
            final(self).window_spec() == old(self).window_spec(),
            final(self).draggable_spec() == old(self).draggable_spec(),
    {
        self.pos = self.pos.plus(pos_diff);
    }

    /// Draws the part `area` of the screen that the layer covers into
    /// `screen`.
    pub fn draw_to(&self, screen: &mut FrameBuffer, area: &Rectangle<i32>)
        requires
            layer_ok(*self, old(screen).format_spec()),
            old(screen).wf(),
            small(area.pos),
            small(area.size),
            area.size.x >= 0,
            area.size.y >= 0,
        ensures
            final(screen).wf(),
            final(screen).width_spec() == old(screen).width_spec(),
            final(screen).height_spec() == old(screen).height_spec(),
            final(screen).format_spec() == old(screen).format_spec(),
            forall|x: int, y: int| inside(x, y, old(screen).width_spec(), old(screen).height_spec()) ==> #[trigger] final(screen).pixel(x, y)
                == layer_pixel(*self, *area, old(screen).width_spec(), old(screen).height_spec(), old(screen).pixel(x, y), x, y),
    {
        self.window.draw_to(screen, self.pos, area);
    }

    /// Sets whether the layer can be dragged.
    pub fn set_draggable(&mut self, dragable: bool)
        ensures
            final(self).draggable_spec() == dragable,
            final(self).pos_spec() == old(self).pos_spec(),
            final(self).window_spec() == old(self).window_spec(),
    {
        self.dragable = dragable;
    }

    /// Whether the layer can be dragged.
    pub fn is_draggable(&self) -> (r: bool)
        ensures
            r == self.draggable_spec(),
    {
        self.dragable
    }
}

/// What the manager needs of a layer to draw it on a screen of pixel
/// format `format`: a well-formed window of that format, of at most
/// `CANVAS` pixels each way, at a position within `CANVAS`.
pub open spec fn layer_ok(l: Layer, format: PixelFormat) -> bool {
    let b = l.window_spec().base_spec();
    &&& l.window_spec().wf()
    &&& b.format_spec() == format
    &&& b.width_spec() <= CANVAS
    &&& b.height_spec() <= CANVAS
    &&& on_canvas(l.pos_spec())
}

/// The color that drawing layer `l` over `area` of a `dw` by `dh` buffer
/// leaves at (`x`, `y`) where the color was `under`.
pub open spec fn layer_pixel(l: Layer, area: Rectangle<i32>, dw: int, dh: int, under: PixelColor, x: int, y: int) -> PixelColor {
    l.window_spec().base_spec().drawn_pixel(l.pos_spec(), area, dw, dh, under, x, y)
}

/// The color at (`x`, `y`) after drawing the layers of `stack`, bottom
/// first, over `area`, where the color was `under`.
pub open spec fn stack_pixel(stack: Seq<u32>, layers: Map<u32, Layer>, area: Rectangle<i32>, dw: int, dh: int, under: PixelColor, x: int, y: int) -> PixelColor
    decreases stack.len(),
{
    if stack.len() == 0 {
        under
    } else {
        layer_pixel(layers[stack.last()], area, dw, dh, stack_pixel(stack.drop_last(), layers, area, dw, dh, under, x, y), x, y)
    }
}

/// The position of `id` in `stack` (its height), or -1 when it is not
/// there.
pub open spec fn height_of(stack: Seq<u32>, id: u32) -> int {
    if exists|i: int| 0 <= i < stack.len() && stack[i] == id {
        choose|i: int| 0 <= i < stack.len() && stack[i] == id
    } else {
        -1
    }
}

/// No id occurs twice.
pub open spec fn distinct(stack: Seq<u32>) -> bool {
    forall|i: int, j: int| 0 <= i < j < stack.len() ==> stack[i] != stack[j]
}

/// In a stack without repeats, the height of the id at `i` is `i`.
pub proof fn lemma_height_at(stack: Seq<u32>, i: int)
    requires
        distinct(stack),
        0 <= i < stack.len(),
    ensures
        height_of(stack, stack[i]) == i,
{
    let id = stack[i];
    assert(exists|k: int| 0 <= k < stack.len() && stack[k] == id);
    let k = choose|k: int| 0 <= k < stack.len() && stack[k] == id;
    if k < i {
        assert(stack[k] != stack[i]);
    } else if k > i {
        assert(stack[i] != stack[k]);
    }
}

/// Where `up_down(id, ..)` leaves another shown id: `raised` removes `id`
/// and puts it back elsewhere, so the others keep their order.
pub proof fn lemma_up_down_keeps_order(stack: Seq<u32>, id: u32, new_height: i32, a: u32, b: u32)
    requires
        distinct(stack),
        a != id,
        b != id,
        height_of(stack, a) >= 0,
        height_of(stack, b) >= 0,
    ensures
        height_of(raised(stack, id, new_height), a) >= 0,
        height_of(raised(stack, id, new_height), b) >= 0,
        (height_of(raised(stack, id, new_height), a) < height_of(raised(stack, id, new_height), b))
            == (height_of(stack, a) < height_of(stack, b)),
{
    lemma_height_after_up_down(stack, id, new_height);
    let r = raised(stack, id, new_height);
    let n = stack.len() as int;
    let h = height_of(stack, id);
    let p = if new_height > n { n } else { new_height as int };
    let ia = height_of(stack, a);
    let ib = height_of(stack, b);
    assert(exists|k: int| 0 <= k < stack.len() && stack[k] == a);
    assert(exists|k: int| 0 <= k < stack.len() && stack[k] == b);
    assert(stack[ia] == a && stack[ib] == b);
    if h >= 0 {
        assert(exists|k: int| 0 <= k < stack.len() && stack[k] == id);
        assert(stack[h] == id);
    }
    // Index of a stack position after removing `id` (when shown).
    let ga = if h >= 0 && ia > h { ia - 1 } else { ia };
    let gb = if h >= 0 && ib > h { ib - 1 } else { ib };
    let s1 = if h >= 0 { stack.remove(h) } else { stack };
    assert(s1[ga] == a && s1[gb] == b);
    let ja: int;
    let jb: int;
    if new_height < 0 {
        ja = ga;
        jb = gb;
        assert(r == s1);
    } else {
        let q = if h >= 0 { if p == n { n - 1 } else { p } } else { p };
        assert(r == s1.insert(q, id));
        ja = if ga < q { ga } else { ga + 1 };
        jb = if gb < q { gb } else { gb + 1 };
    }
    assert(0 <= ja < r.len() && r[ja] == a);
    assert(0 <= jb < r.len() && r[jb] == b);
    lemma_height_at(r, ja);
    lemma_height_at(r, jb);
}

/// Where `up_down(id, new_height)` leaves `id`: hidden (height -1) for a
/// negative height, else at `new_height`, or at the top when that is
/// higher; the stack keeps no repeats.
pub proof fn lemma_height_after_up_down(stack: Seq<u32>, id: u32, new_height: i32)
    requires
        distinct(stack),
    ensures
        distinct(raised(stack, id, new_height)),
        height_of(raised(stack, id, new_height), id) == if new_height < 0 {
            -1
        } else {
            let top = if height_of(stack, id) >= 0 { stack.len() - 1 } else { stack.len() as int };
            if new_height > top { top } else { new_height as int }
        },
{
    let n = stack.len() as int;
    let h = height_of(stack, id);
    let p = if new_height > n { n } else { new_height as int };
    if h >= 0 {
        assert(0 <= h < n && stack[h] == id);
    } else {
        assert forall|i: int| 0 <= i < n implies stack[i] != id by {
            if stack[i] == id {
                assert(exists|k: int| 0 <= k < stack.len() && stack[k] == id);
            }
        }
    }
    let r = raised(stack, id, new_height);
    if new_height < 0 {
        if h >= 0 {
            let s2 = stack.remove(h);
            assert forall|i: int| 0 <= i < s2.len() implies s2[i] != id by {
                if i < h {
                    assert(stack[i] != stack[h]);
                } else {
                    assert(s2[i] == stack[i + 1]);
                    assert(stack[h] != stack[i + 1]);
                }
            }
            assert(!(exists|i: int| 0 <= i < s2.len() && s2[i] == id));
            assert forall|i: int, j: int| 0 <= i < j < s2.len() implies s2[i] != s2[j] by {
                let a = if i < h { i } else { i + 1 };
                let b = if j < h { j } else { j + 1 };
                assert(s2[i] == stack[a] && s2[j] == stack[b]);
            }
        } else {
            assert(!(exists|i: int| 0 <= i < stack.len() && stack[i] == id));
        }
    } else if h < 0 {
        let s2 = stack.insert(p, id);
        assert forall|i: int, j: int| 0 <= i < j < s2.len() implies s2[i] != s2[j] by {
            if i < p && j < p {
            } else if i < p && j == p {
            } else if i < p {
                assert(s2[j] == stack[j - 1]);
            } else if i == p {
                assert(s2[j] == stack[j - 1]);
            } else {
                assert(s2[i] == stack[i - 1] && s2[j] == stack[j - 1]);
            }
        }
        assert(s2[p] == id);
        lemma_height_at(s2, p);
    } else {
        let s1 = stack.remove(h);
        assert forall|i: int, j: int| 0 <= i < j < s1.len() implies s1[i] != s1[j] by {
            let a = if i < h { i } else { i + 1 };
            let b = if j < h { j } else { j + 1 };
            assert(s1[i] == stack[a] && s1[j] == stack[b]);
        }
        assert forall|i: int| 0 <= i < s1.len() implies s1[i] != id by {
            if i < h {
                assert(stack[i] != stack[h]);
            } else {
                assert(s1[i] == stack[i + 1]);
                assert(stack[h] != stack[i + 1]);
            }
        }
        let q = if p == n { n - 1 } else { p };
        let s2 = s1.insert(q, id);
        assert forall|i: int, j: int| 0 <= i < j < s2.len() implies s2[i] != s2[j] by {
            if i < q && j < q {
            } else if i < q && j == q {
            } else if i < q {
                assert(s2[j] == s1[j - 1]);
            } else if i == q {
                assert(s2[j] == s1[j - 1]);
            } else {
                assert(s2[i] == s1[i - 1] && s2[j] == s1[j - 1]);
            }
        }
        assert(s2[q] == id);
        lemma_height_at(s2, q);
    }
}

/// Whether (`x`, `y`) lies on layer `l`'s whole window.
pub open spec fn hits(l: Layer, x: int, y: int) -> bool {
    let p = l.pos_spec();
    let b = l.window_spec().base_spec();
    p.x <= x < p.x + b.width_spec() && p.y <= y < p.y + b.height_spec()
}

/// The topmost layer of `stack`, other than `exclude_id`, whose window
/// covers (`x`, `y`).
pub open spec fn topmost_at(stack: Seq<u32>, layers: Map<u32, Layer>, x: int, y: int, exclude_id: u32) -> Option<u32>
    decreases stack.len(),
{
    if stack.len() == 0 {
        None
    } else if stack.last() != exclude_id && hits(layers[stack.last()], x, y) {
        Some(stack.last())
    } else {
        topmost_at(stack.drop_last(), layers, x, y, exclude_id)
    }
}

/// What `topmost_at` finds is the highest layer of `stack`, other than
/// `exclude_id`, whose window covers the point: it covers it, and no layer
/// above it (but `exclude_id`) does; with none found, no layer but
/// `exclude_id` covers it.
pub proof fn lemma_topmost_is_highest(stack: Seq<u32>, layers: Map<u32, Layer>, x: int, y: int, exclude_id: u32)
    ensures
        match topmost_at(stack, layers, x, y, exclude_id) {
            Some(id) => exists|k: int| #![trigger stack[k]] 0 <= k < stack.len() && stack[k] == id && id != exclude_id
                && hits(layers[id], x, y)
                && forall|j: int| k < j < stack.len() ==> stack[j] == exclude_id || !hits(layers[#[trigger] stack[j]], x, y),
            None => forall|j: int| 0 <= j < stack.len() ==> stack[j] == exclude_id || !hits(layers[#[trigger] stack[j]], x, y),
        },
    decreases stack.len(),
{
    if stack.len() > 0 {
        let d = stack.drop_last();
        lemma_topmost_is_highest(d, layers, x, y, exclude_id);
        let n = stack.len() - 1;
        if stack.last() != exclude_id && hits(layers[stack.last()], x, y) {
            assert(stack[n] == stack.last());
        } else {
            match topmost_at(d, layers, x, y, exclude_id) {
                Some(id) => {
                    let k = choose|k: int| #![trigger d[k]] 0 <= k < d.len() && d[k] == id && id != exclude_id
                        && hits(layers[id], x, y)
                        && forall|j: int| k < j < d.len() ==> d[j] == exclude_id || !hits(layers[#[trigger] d[j]], x, y);
                    assert(stack[k] == d[k]);
                    assert forall|j: int| k < j < stack.len() implies stack[j] == exclude_id || !hits(layers[#[trigger] stack[j]], x, y) by {
                        if j < n {
                            assert(stack[j] == d[j]);
                        }
                    }
                },
                None => {
                    assert forall|j: int| 0 <= j < stack.len() implies stack[j] == exclude_id || !hits(layers[#[trigger] stack[j]], x, y) by {
                        if j < n {
                            assert(stack[j] == d[j]);
                        }
                    }
                },
            }
        }
    }
}

/// Where `up_down(id, new_height)` puts `id` in `stack`: hidden for a
/// negative height, otherwise at `new_height` clamped to the top, counting
/// without `id` itself when it was shown already.
pub open spec fn raised(stack: Seq<u32>, id: u32, new_height: i32) -> Seq<u32> {
    let n = stack.len() as int;
    let h = height_of(stack, id);
    let p = if new_height > n { n } else { new_height as int };
    if new_height < 0 {
        if h >= 0 { stack.remove(h) } else { stack }
    } else if h < 0 {
        stack.insert(p, id)
    } else {
        stack.remove(h).insert(if p == n { n - 1 } else { p }, id)
    }
}

/// The part of a `w` by `h` screen that copying `area` of the back buffer
/// to the same place writes.
pub open spec fn screen_clip(w: int, h: int, area: Rectangle<i32>) -> Rectangle<i32> {
    let outline = Rectangle { pos: Vector2D { x: 0i32, y: 0i32 }, size: Vector2D { x: w as i32, y: h as i32 } };
    intersection_of(intersection_of(outline, outline), area)
}

/// The area `draw_area(id, area)` redraws for layer `l`: its whole window,
/// or, when `area` has a size, the part of it at `area.pos` from the
/// window's corner.
pub open spec fn area_of(l: Layer, area: Rectangle<i32>) -> Rectangle<i32> {
    let wnd = Rectangle {
        pos: l.pos_spec(),
        size: Vector2D { x: l.window_spec().base_spec().width_spec() as i32, y: l.window_spec().base_spec().height_spec() as i32 },
    };
    if area.size.x >= 0 || area.size.y >= 0 {
        intersection_of(wnd, Rectangle { pos: Vector2D { x: (area.pos.x + wnd.pos.x) as i32, y: (area.pos.y + wnd.pos.y) as i32 }, size: area.size })
    } else {
        wnd
    }
}

/// The color at (`x`, `y`) after drawing layer `id` and the layers above it
/// over `area_of(layers[id], area)`, where the color was `under`; nothing
/// is drawn when `id` is not shown.
pub open spec fn from_pixel(stack: Seq<u32>, layers: Map<u32, Layer>, id: u32, area: Rectangle<i32>, dw: int, dh: int, under: PixelColor, x: int, y: int) -> PixelColor {
    let h = height_of(stack, id);
    if h < 0 {
        under
    } else {
        stack_pixel(stack.subrange(h, stack.len() as int), layers, area_of(layers[id], area), dw, dh, under, x, y)
    }
}

/// The area that stands for "the whole window" in `draw_area`.
pub open spec fn whole() -> Rectangle<i32> {
    Rectangle { pos: Vector2D { x: 0i32, y: 0i32 }, size: Vector2D { x: -1i32, y: -1i32 } }
}

/// Whether `area` is one `draw_area` takes: within `CANVAS`, and either of
/// no negative size or the whole window (both sizes negative).
pub open spec fn area_ok(area: Rectangle<i32>) -> bool {
    &&& on_canvas(area.pos)
    &&& on_canvas(area.size)
    &&& (area.size.x >= 0 && area.size.y >= 0) || (area.size.x < 0 && area.size.y < 0)
}

/// All layers, their drawing order, the back buffer they are composed in
/// and the screen it is copied to.
pub struct LayerManager {
    screen: FrameBuffer,
    layers: BTreeMap<u32, Layer>,
    layer_stack: Vec<u32>,
    latest_id: u32,
    back_buffer: FrameBuffer,
    mouse_layer: u32,
    active_layer: u32,
}

impl LayerManager {
    pub closed spec fn screen_spec(&self) -> FrameBuffer {
        self.screen
    }

    pub closed spec fn back_spec(&self) -> FrameBuffer {
        self.back_buffer
    }

    pub closed spec fn layers_spec(&self) -> Map<u32, Layer> {
        self.layers@
    }

    pub closed spec fn stack_spec(&self) -> Seq<u32> {
        self.layer_stack@
    }

    pub closed spec fn latest_spec(&self) -> u32 {
        self.latest_id
    }

    pub closed spec fn mouse_spec(&self) -> u32 {
        self.mouse_layer
    }

    pub closed spec fn active_spec(&self) -> u32 {
        self.active_layer
    }

    /// `new` keeps the layers, their order, the ids and the buffers' sizes
    /// and formats of `self`.
    pub open spec fn same_layout(self, new: Self) -> bool {
        &&& new.layers_spec() == self.layers_spec()
        &&& new.stack_spec() == self.stack_spec()
        &&& new.latest_spec() == self.latest_spec()
        &&& new.mouse_spec() == self.mouse_spec()
        &&& new.active_spec() == self.active_spec()
        &&& new.screen_spec().width_spec() == self.screen_spec().width_spec()
        &&& new.screen_spec().height_spec() == self.screen_spec().height_spec()
        &&& new.screen_spec().format_spec() == self.screen_spec().format_spec()
        &&& new.back_spec().width_spec() == self.back_spec().width_spec()
        &&& new.back_spec().height_spec() == self.back_spec().height_spec()
        &&& new.back_spec().format_spec() == self.back_spec().format_spec()
    }

    /// `new` is `self` after `draw(area)`: every shown layer drawn over
    /// `area` into the back buffer, bottom first, and `area` of the back
    /// buffer copied to the screen.
    pub open spec fn drew(self, new: Self, area: Rectangle<i32>) -> bool {
        let w = self.screen_spec().width_spec();
        let h = self.screen_spec().height_spec();
        &&& self.same_layout(new)
        &&& forall|x: int, y: int| inside(x, y, w, h) ==> #[trigger] new.back_spec().pixel(x, y)
            == stack_pixel(self.stack_spec(), self.layers_spec(), area, w, h, self.back_spec().pixel(x, y), x, y)
        &&& forall|x: int, y: int| inside(x, y, w, h) ==> #[trigger] new.screen_spec().pixel(x, y)
            == if in_rect(x, y, screen_clip(w, h, area).pos, screen_clip(w, h, area).size) {
                new.back_spec().pixel(x, y)
            } else {
                self.screen_spec().pixel(x, y)
            }
    }

    /// `new` is `self` after `draw_area(id, area)`: layer `id` and those
    /// above it drawn over `area_of(layers[id], area)` and that area copied
    /// to the screen; nothing happens when `id` is not shown.
    pub open spec fn drew_from(self, new: Self, id: u32, area: Rectangle<i32>) -> bool {
        let w = self.screen_spec().width_spec();
        let h = self.screen_spec().height_spec();
        let a = area_of(self.layers_spec()[id], area);
        &&& self.same_layout(new)
        &&& forall|x: int, y: int| inside(x, y, w, h) ==> #[trigger] new.back_spec().pixel(x, y)
            == from_pixel(self.stack_spec(), self.layers_spec(), id, area, w, h, self.back_spec().pixel(x, y), x, y)
        &&& forall|x: int, y: int| inside(x, y, w, h) ==> #[trigger] new.screen_spec().pixel(x, y)
            == if height_of(self.stack_spec(), id) >= 0 && in_rect(x, y, screen_clip(w, h, a).pos, screen_clip(w, h, a).size) {
                new.back_spec().pixel(x, y)
            } else {
                self.screen_spec().pixel(x, y)
            }
    }

    /// `new` is `self` after `move_to(id, new_pos)`: layer `id` placed at
    /// `new_pos`, the area it covered before redrawn, then the layer and
    /// those above it drawn at the new place.
    pub open spec fn moved(self, new: Self, id: u32, new_pos: Vector2D<i32>) -> bool {
        let w = self.screen_spec().width_spec();
        let h = self.screen_spec().height_spec();
        let old_l = self.layers_spec()[id];
        let l2 = new.layers_spec()[id];
        let layers2 = self.layers_spec().insert(id, l2);
        let b = old_l.window_spec().base_spec();
        let a1 = Rectangle { pos: old_l.pos_spec(), size: Vector2D { x: b.width_spec() as i32, y: b.height_spec() as i32 } };
        let a2 = area_of(l2, whole());
        &&& new.layers_spec() == layers2
        &&& l2.pos_spec() == new_pos
        &&& l2.window_spec() == old_l.window_spec()
        &&& l2.draggable_spec() == old_l.draggable_spec()
        &&& new.stack_spec() == self.stack_spec()
        &&& new.latest_spec() == self.latest_spec()
        &&& new.mouse_spec() == self.mouse_spec()
        &&& new.active_spec() == self.active_spec()
        &&& new.screen_spec().width_spec() == w
        &&& new.screen_spec().height_spec() == h
        &&& new.screen_spec().format_spec() == self.screen_spec().format_spec()
        &&& forall|x: int, y: int| inside(x, y, w, h) ==> #[trigger] new.back_spec().pixel(x, y)
            == from_pixel(self.stack_spec(), layers2, id, whole(), w, h,
                stack_pixel(self.stack_spec(), layers2, a1, w, h, self.back_spec().pixel(x, y), x, y), x, y)
        &&& forall|x: int, y: int| inside(x, y, w, h) ==> #[trigger] new.screen_spec().pixel(x, y)
            == if height_of(self.stack_spec(), id) >= 0 && in_rect(x, y, screen_clip(w, h, a2).pos, screen_clip(w, h, a2).size) {
                new.back_spec().pixel(x, y)
            } else if in_rect(x, y, screen_clip(w, h, a1).pos, screen_clip(w, h, a1).size) {
                stack_pixel(self.stack_spec(), layers2, a1, w, h, self.back_spec().pixel(x, y), x, y)
            } else {
                self.screen_spec().pixel(x, y)
            }
    }

    /// Whether layer `id` may be placed at `pos`: positions stay within
    /// `CANVAS` of the origin, which keeps the drawing arithmetic in range.
    pub open spec fn can_place(self, id: u32, pos: Vector2D<int>) -> bool {
        &&& self.layers_spec().contains_key(id)
        &&& -CANVAS <= pos.x <= CANVAS && -CANVAS <= pos.y <= CANVAS
    }

    /// The manager's invariant: the screen and back buffer match, every id
    /// in the stack is a layer and occurs once, layer ids run from 1 to the
    /// latest one handed out, and every layer can be drawn.
    pub closed spec fn wf(&self) -> bool {
        &&& self.screen.wf()
        &&& self.back_buffer.wf()
        &&& self.back_buffer.width_spec() == self.screen.width_spec()
        &&& self.back_buffer.height_spec() == self.screen.height_spec()
        &&& self.back_buffer.format_spec() == self.screen.format_spec()
        &&& self.screen.width_spec() <= CANVAS
        &&& self.screen.height_spec() <= CANVAS
        &&& distinct(self.layer_stack@)
        &&& self.layer_stack@.len() < 0x8000_0000
        &&& forall|i: int| 0 <= i < self.layer_stack@.len() ==> self.layers@.contains_key(#[trigger] self.layer_stack@[i])
        &&& forall|k: u32| #[trigger] self.layers@.contains_key(k) ==> 0 < k <= self.latest_id
            && layer_ok(self.layers@[k], self.screen.format_spec())
    }

    /// A manager of no layers drawing to `screen`, with a black back buffer
    /// of the screen's size and format.
    pub fn new(screen: FrameBuffer) -> (r: Self)
        requires
            screen.wf(),
            screen.width_spec() <= CANVAS,
            screen.height_spec() <= CANVAS,
        ensures
            r.wf(),
            r.screen_spec() == screen,
            r.layers_spec() == Map::<u32, Layer>::empty(),
            r.stack_spec() == Seq::<u32>::empty(),
            r.latest_spec() == 0,
            r.mouse_spec() == 0,
            r.active_spec() == 0,
            r.back_spec().width_spec() == screen.width_spec(),
            r.back_spec().height_spec() == screen.height_spec(),
            r.back_spec().format_spec() == screen.format_spec(),
    {
        proof { screen.lemma_dims(); }
        let config = FrameBufferConfig {
            frame_buffer: 0,
            pixels_per_scan_line: screen.pixels_per_scan_line(),
            horizontal_resolution: screen.horizontal_resolution(),
            vertical_resolution: screen.vertical_resolution(),
            pixel_format: screen.pixel_format(),
        };
        let back_buffer = match FrameBuffer::new(config) {
            Ok(b) => b,
            Err(_) => vstd::pervasive::unreached(),
        };
        LayerManager {
            screen,
            layers: BTreeMap::new(),
            layer_stack: Vec::new(),
            latest_id: 0,
            back_buffer,
            mouse_layer: 0,
            active_layer: 0,
        }
    }

    /// The screen the layers are composed onto.
    pub fn screen(&self) -> (r: &FrameBuffer)
        ensures
            *r == self.screen_spec(),
    {
        &self.screen
    }

    /// The screen's size.
    pub fn screen_size(&self) -> (r: Vector2D<i32>)
        requires
            self.wf(),
        ensures
            r.x == self.screen_spec().width_spec(),
            r.y == self.screen_spec().height_spec(),
    {
        proof { self.screen.lemma_dims(); }
        Vector2D::new(self.screen.horizontal_resolution() as i32, self.screen.vertical_resolution() as i32)
    }

    /// The screen's pixel format.
    pub fn pixel_format(&self) -> (r: PixelFormat)
        ensures
            r == self.screen_spec().format_spec(),
    {
        self.screen.pixel_format()
    }

    /// Adds a layer for `window` at the origin under the next id, and
    /// returns that id; the new layer is not shown yet.
    pub fn new_layer(&mut self, window: Window) -> (r: u32)
        requires
            old(self).wf(),
            old(self).latest_spec() < u32::MAX,
            window.wf(),
            window.base_spec().format_spec() == old(self).screen_spec().format_spec(),
            window.base_spec().width_spec() <= CANVAS,
            window.base_spec().height_spec() <= CANVAS,
        ensures
            final(self).wf(),
            r == old(self).latest_spec() + 1,
            final(self).latest_spec() == r,
            final(self).layers_spec() == old(self).layers_spec().insert(r, final(self).layers_spec()[r]),
            final(self).layers_spec()[r].pos_spec() == (Vector2D { x: 0i32, y: 0i32 }),
            final(self).layers_spec()[r].window_spec() == window,
            !final(self).layers_spec()[r].draggable_spec(),
            final(self).stack_spec() == old(self).stack_spec(),
            final(self).screen_spec() == old(self).screen_spec(),
            final(self).back_spec() == old(self).back_spec(),
            final(self).mouse_spec() == old(self).mouse_spec(),
            final(self).active_spec() == old(self).active_spec(),
    {
        self.latest_id = self.latest_id + 1;
        let id = self.latest_id;
        self.layers.insert(id, Layer::new(window));
        proof {
            assert forall|i: int| 0 <= i < self.layer_stack@.len() implies self.layers@.contains_key(#[trigger] self.layer_stack@[i]) by {
                assert(old(self).layers@.contains_key(self.layer_stack@[i]));
            }
            assert forall|k: u32| #[trigger] self.layers@.contains_key(k) implies 0 < k <= self.latest_id
                && layer_ok(self.layers@[k], self.screen.format_spec()) by {
                if k != id {
                    assert(old(self).layers@.contains_key(k));
                }
            }
        }
        id
    }

    /// The layer `id`, to change in place; the manager takes back whatever
    /// the caller leaves in it.
    pub fn layer(&mut self, id: u32) -> (r: &mut Layer)
        requires
            old(self).layers_spec().contains_key(id),
        ensures
            *r == old(self).layers_spec()[id],
            final(self).layers_spec() == old(self).layers_spec().insert(id, *final(r)),
            final(self).stack_spec() == old(self).stack_spec(),
            final(self).latest_spec() == old(self).latest_spec(),
            final(self).screen_spec() == old(self).screen_spec(),
            final(self).back_spec() == old(self).back_spec(),
            final(self).mouse_spec() == old(self).mouse_spec(),
            final(self).active_spec() == old(self).active_spec(),
    {
        match layer_entry(&mut self.layers, id) {
            Some(l) => l,
            None => vstd::pervasive::unreached(),
        }
    }

    /// Replacing a layer by one that can still be drawn keeps the
    /// manager's invariant.
    pub proof fn lemma_replace_layer(old_m: &Self, new_m: &Self, id: u32)
        requires
            old_m.wf(),
            old_m.layers_spec().contains_key(id),
            new_m.layers_spec() == old_m.layers_spec().insert(id, new_m.layers_spec()[id]),
            layer_ok(new_m.layers_spec()[id], old_m.screen_spec().format_spec()),
            new_m.stack_spec() == old_m.stack_spec(),
            new_m.latest_spec() == old_m.latest_spec(),
            new_m.screen_spec() == old_m.screen_spec(),
            new_m.back_spec() == old_m.back_spec(),
        ensures
            new_m.wf(),
    {
        assert forall|i: int| 0 <= i < new_m.layer_stack@.len() implies new_m.layers@.contains_key(#[trigger] new_m.layer_stack@[i]) by {
            assert(old_m.layers@.contains_key(old_m.layer_stack@[i]));
        }
        assert forall|k: u32| #[trigger] new_m.layers@.contains_key(k) implies 0 < k <= new_m.latest_id
            && layer_ok(new_m.layers@[k], new_m.screen.format_spec()) by {
            assert(old_m.layers@.contains_key(k));
        }
    }

    /// Every layer of a well-formed manager can be drawn on its screen, and
    /// the screen is as wide and high as the back buffer.
    pub proof fn lemma_layer_ok(&self, id: u32)
        requires
            self.wf(),
            self.layers_spec().contains_key(id),
        ensures
            layer_ok(self.layers_spec()[id], self.screen_spec().format_spec()),
            0 < id <= self.latest_spec(),
    {
    }

    /// The screen of a well-formed manager is at most `CANVAS` pixels each
    /// way.
    pub proof fn lemma_screen_dims(&self)
        requires
            self.wf(),
        ensures
            0 <= self.screen_spec().width_spec() <= CANVAS,
            0 <= self.screen_spec().height_spec() <= CANVAS,
            self.screen_spec().width_spec() * self.screen_spec().height_spec() <= usize::MAX,
    {
        self.screen.lemma_dims();
    }

    /// No layer is shown twice.
    pub proof fn lemma_stack_distinct(&self)
        requires
            self.wf(),
        ensures
            distinct(self.stack_spec()),
    {
    }

    /// Every shown id is a layer.
    pub proof fn lemma_stack_layers(&self)
        requires
            self.wf(),
        ensures
            forall|i: int| 0 <= i < self.stack_spec().len() ==> self.layers_spec().contains_key(#[trigger] self.stack_spec()[i]),
            forall|id: u32| #[trigger] self.stack_spec().contains(id) ==> self.layers_spec().contains_key(id),
    {
        assert forall|id: u32| #[trigger] self.stack_spec().contains(id) implies self.layers_spec().contains_key(id) by {
            let k = choose|k: int| 0 <= k < self.layer_stack@.len() && self.layer_stack@[k] == id;
            assert(self.layers@.contains_key(self.layer_stack@[k]));
        }
    }

    /// Whether layer `id` may be moved by `pos_diff` (see `can_place`).
    pub fn can_place_exec(&self, id: u32, pos_diff: Vector2D<i32>) -> (r: bool)
        requires
            self.wf(),
            on_canvas(pos_diff),
        ensures
            r == (self.layers_spec().contains_key(id) && self.can_place(id, Vector2D {
                x: self.layers_spec()[id].pos_spec().x + pos_diff.x,
                y: self.layers_spec()[id].pos_spec().y + pos_diff.y,
            })),
    {
        match self.layers.get(&id) {
            Some(l) => {
                assert(layer_ok(self.layers@[id], self.screen.format_spec()));
                let x = l.pos.x + pos_diff.x;
                let y = l.pos.y + pos_diff.y;
                -CANVAS <= x && x <= CANVAS && -CANVAS <= y && y <= CANVAS
            },
            None => false,
        }
    }

    /// The layer `id`, if there is one.
    pub fn find_layer(&self, id: u32) -> (r: Option<&Layer>)
        ensures
            r is Some <==> self.layers_spec().contains_key(id),
            r matches Some(l) ==> *l == self.layers_spec()[id],
    {
        self.layers.get(&id)
    }

    /// The height of `id` in the drawing order: 0 at the bottom, -1 when
    /// the layer is not shown.
    pub fn get_height(&self, id: u32) -> (r: i32)
        requires
            self.wf(),
        ensures
            r == height_of(self.stack_spec(), id),
    {
        let mut i: usize = 0;
        while i < self.layer_stack.len()
            invariant
                self.wf(),
                i <= self.layer_stack@.len(),
                forall|k: int| 0 <= k < i ==> self.layer_stack@[k] != id,
            decreases self.layer_stack@.len() - i,
        {
            if self.layer_stack[i] == id {
                proof { lemma_height_at(self.layer_stack@, i as int); }
                return i as i32;
            }
            i = i + 1;
        }
        -1
    }

    /// Takes layer `id` out of the drawing order; nothing changes when it
    /// is not shown.
    pub fn hide_layer(&mut self, id: u32)
        requires
            old(self).wf(),
        ensures
            final(self).wf(),
            final(self).stack_spec() == raised(old(self).stack_spec(), id, -1i32),
            final(self).layers_spec() == old(self).layers_spec(),
            final(self).latest_spec() == old(self).latest_spec(),
            final(self).screen_spec() == old(self).screen_spec(),
            final(self).back_spec() == old(self).back_spec(),
            final(self).mouse_spec() == old(self).mouse_spec(),
            final(self).active_spec() == old(self).active_spec(),
    {
        let h = self.get_height(id);
        if h >= 0 {
            let ghost s = self.layer_stack@;
            self.layer_stack.remove(h as usize);
            proof {
                assert forall|i: int, j: int| 0 <= i < j < self.layer_stack@.len() implies self.layer_stack@[i] != self.layer_stack@[j] by {
                    let ii = if i < h { i } else { i + 1 };
                    let jj = if j < h { j } else { j + 1 };
                    assert(s[ii] != s[jj]);
                }
                assert forall|i: int| 0 <= i < self.layer_stack@.len() implies self.layers@.contains_key(#[trigger] self.layer_stack@[i]) by {
                    let ii = if i < h { i } else { i + 1 };
                    assert(self.layer_stack@[i] == s[ii]);
                }
            }
        }
    }

    /// Puts layer `id` at height `new_height` of the drawing order (see
    /// `raised`): a negative height hides it, a height at or above the
    /// number of shown layers puts it on top.
    pub fn up_down(&mut self, id: u32, new_height: i32)
        requires
            old(self).wf(),
            old(self).layers_spec().contains_key(id),
            old(self).stack_spec().len() < 0x7fff_ffff,
        ensures
            final(self).wf(),
            final(self).stack_spec() == raised(old(self).stack_spec(), id, new_height),
            final(self).layers_spec() == old(self).layers_spec(),
            final(self).latest_spec() == old(self).latest_spec(),
            final(self).screen_spec() == old(self).screen_spec(),
            final(self).back_spec() == old(self).back_spec(),
            final(self).mouse_spec() == old(self).mouse_spec(),
            final(self).active_spec() == old(self).active_spec(),
    {
        if new_height < 0 {
            self.hide_layer(id);
            return;
        }
        let n = self.layer_stack.len();
        let new_pos: usize = if new_height > n as i32 { n } else { new_height as usize };
        let old_pos = self.get_height(id);
        let ghost s = self.layer_stack@;
        if old_pos < 0 {
            self.layer_stack.insert(new_pos, id);
            proof {
                assert forall|i: int, j: int| 0 <= i < j < self.layer_stack@.len() implies self.layer_stack@[i] != self.layer_stack@[j] by {
                    if i != new_pos && j != new_pos {
                        let ii = if i < new_pos { i } else { i - 1 };
                        let jj = if j < new_pos { j } else { j - 1 };
                        assert(s[ii] != s[jj]);
                    } else if i == new_pos {
                        let jj = j - 1;
                        assert(s[jj] != id);
                    } else {
                        assert(s[i] != id);
                    }
                }
                assert forall|i: int| 0 <= i < self.layer_stack@.len() implies self.layers@.contains_key(#[trigger] self.layer_stack@[i]) by {
                    if i < new_pos {
                        assert(self.layer_stack@[i] == s[i]);
                    } else if i > new_pos {
                        assert(self.layer_stack@[i] == s[i - 1]);
                    }
                }
            }
            return;
        }
        let new_pos2: usize = if new_pos == n { new_pos - 1 } else { new_pos };
        self.layer_stack.remove(old_pos as usize);
        let ghost r = self.layer_stack@;
        proof {
            assert forall|i: int, j: int| 0 <= i < j < r.len() implies r[i] != r[j] by {
                let ii = if i < old_pos { i } else { i + 1 };
                let jj = if j < old_pos { j } else { j + 1 };
                assert(s[ii] != s[jj]);
            }
            assert forall|i: int| 0 <= i < r.len() implies r[i] != id by {
                let ii = if i < old_pos { i } else { i + 1 };
                assert(s[ii] != s[old_pos as int]);
            }
        }
        self.layer_stack.insert(new_pos2, id);
        proof {
            assert forall|i: int, j: int| 0 <= i < j < self.layer_stack@.len() implies self.layer_stack@[i] != self.layer_stack@[j] by {
                if i != new_pos2 && j != new_pos2 {
                    let ii = if i < new_pos2 { i } else { i - 1 };
                    let jj = if j < new_pos2 { j } else { j - 1 };
                    assert(r[ii] != r[jj]);
                } else if i == new_pos2 {
                    assert(r[j - 1] != id);
                } else {
                    assert(r[i] != id);
                }
            }
            assert forall|i: int| 0 <= i < self.layer_stack@.len() implies self.layers@.contains_key(#[trigger] self.layer_stack@[i]) by {
                if i < new_pos2 {
                    let ii = if i < old_pos { i } else { i + 1 };
                    assert(self.layer_stack@[i] == s[ii]);
                } else if i > new_pos2 {
                    let ii = if i - 1 < old_pos { i - 1 } else { i };
                    assert(self.layer_stack@[i] == s[ii]);
                }
            }
        }
    }

    /// The topmost shown layer, other than `exclude_id`, whose window
    /// covers `pos`.
    pub fn find_layer_by_position(&self, pos: &Vector2D<i32>, exclude_id: u32) -> (r: Option<u32>)
        requires
            self.wf(),
        ensures
            r == topmost_at(self.stack_spec(), self.layers_spec(), pos.x as int, pos.y as int, exclude_id),
            match r {
                Some(id) => exists|k: int| #![trigger self.stack_spec()[k]] 0 <= k < self.stack_spec().len()
                    && self.stack_spec()[k] == id && id != exclude_id
                    && hits(self.layers_spec()[id], pos.x as int, pos.y as int)
                    && forall|j: int| k < j < self.stack_spec().len() ==> self.stack_spec()[j] == exclude_id
                        || !hits(self.layers_spec()[#[trigger] self.stack_spec()[j]], pos.x as int, pos.y as int),
                None => forall|j: int| 0 <= j < self.stack_spec().len() ==> self.stack_spec()[j] == exclude_id
                    || !hits(self.layers_spec()[#[trigger] self.stack_spec()[j]], pos.x as int, pos.y as int),
            },
    {
        let mut i: usize = self.layer_stack.len();
        assert(self.layer_stack@.subrange(0, i as int) =~= self.layer_stack@);
        while i > 0
            invariant
                self.wf(),
                i <= self.layer_stack@.len(),
                topmost_at(self.layer_stack@, self.layers@, pos.x as int, pos.y as int, exclude_id)
                    == topmost_at(self.layer_stack@.subrange(0, i as int), self.layers@, pos.x as int, pos.y as int, exclude_id),
            decreases i,
        {
            let ghost sub = self.layer_stack@.subrange(0, i as int);
            let id = self.layer_stack[i - 1];
            assert(sub.last() == id);
            assert(sub.drop_last() =~= self.layer_stack@.subrange(0, i - 1));
            if id != exclude_id {
                let layer = match self.layers.get(&id) {
                    Some(l) => l,
                    None => vstd::pervasive::unreached(),
                };
                assert(self.layers@.contains_key(self.layer_stack@[i - 1]));
                let win_pos = layer.pos();
                let b = layer.window().base();
                proof { b.lemma_dims(); }
                let w = b.width() as i32;
                let h = b.height() as i32;
                if win_pos.x <= pos.x && pos.x < win_pos.x + w && win_pos.y <= pos.y && pos.y < win_pos.y + h {
                    proof { lemma_topmost_is_highest(self.stack_spec(), self.layers_spec(), pos.x as int, pos.y as int, exclude_id); }
                    return Some(id);
                }
            }
            i = i - 1;
        }
        assert(self.layer_stack@.subrange(0, 0) =~= Seq::<u32>::empty());
        proof { lemma_topmost_is_highest(self.stack_spec(), self.layers_spec(), pos.x as int, pos.y as int, exclude_id); }
        None
    }

    /// Records which layer shows the mouse cursor.
    pub fn set_mouse_layer(&mut self, id: u32)
        requires
            old(self).wf(),
        ensures
            final(self).mouse_spec() == id,
            final(self).wf(),
            final(self).layers_spec() == old(self).layers_spec(),
            final(self).stack_spec() == old(self).stack_spec(),
            final(self).latest_spec() == old(self).latest_spec(),
            final(self).screen_spec() == old(self).screen_spec(),
            final(self).back_spec() == old(self).back_spec(),
            final(self).active_spec() == old(self).active_spec(),
    {
        self.mouse_layer = id;
    }

    /// The active layer, 0 when none is.
    pub fn get_active(&self) -> (r: u32)
        ensures
            r == self.active_spec(),
    {
        self.active_layer
    }

    /// Draws every shown layer, bottom first, over `area` into the back
    /// buffer, then copies `area` of it to the screen.
    pub fn draw(&mut self, area: &Rectangle<i32>)
        requires
            old(self).wf(),
            on_canvas(area.pos),
            on_canvas(area.size),
            area.size.x >= 0,
            area.size.y >= 0,
        ensures
            final(self).wf(),
            old(self).drew(*final(self), *area),
    {
        proof { self.screen.lemma_dims(); }
        let ghost w = self.screen.width_spec();
        let ghost h = self.screen.height_spec();
        let mut i: usize = 0;
        while i < self.layer_stack.len()
            invariant
                self.wf(),
                old(self).same_layout(*self),
                self.screen == old(self).screen,
                on_canvas(area.pos),
                on_canvas(area.size),
                area.size.x >= 0,
                area.size.y >= 0,
                w == old(self).screen_spec().width_spec(),
                h == old(self).screen_spec().height_spec(),
                i <= self.layer_stack@.len(),
                forall|x: int, y: int| inside(x, y, w, h) ==> #[trigger] self.back_buffer.pixel(x, y)
                    == stack_pixel(self.layer_stack@.take(i as int), self.layers@, *area, w, h, old(self).back_spec().pixel(x, y), x, y),
            decreases self.layer_stack@.len() - i,
        {
            let id = self.layer_stack[i];
            assert(self.layers@.contains_key(self.layer_stack@[i as int]));
            let layer = match self.layers.get(&id) {
                Some(l) => l,
                None => vstd::pervasive::unreached(),
            };
            layer.draw_to(&mut self.back_buffer, area);
            proof {
                let t = self.layer_stack@.take(i + 1);
                assert(t.drop_last() =~= self.layer_stack@.take(i as int));
                assert(t.last() == id);
            }
            i = i + 1;
        }
        proof {
            assert(self.layer_stack@.take(i as int) =~= self.layer_stack@);
        }
        let r = self.screen.copy(area.pos, &self.back_buffer, area);
        proof {
            assert(r is Ok);
        }
    }

    /// Draws layer `id` and the layers above it over the area of layer `id`
    /// that `area_of` gives, then copies that area to the screen. Nothing
    /// happens when `id` is not shown.
    pub fn draw_area(&mut self, id: u32, area: Rectangle<i32>)
        requires
            old(self).wf(),
            area_ok(area),
        ensures
            final(self).wf(),
            old(self).drew_from(*final(self), id, area),
    {
        proof { self.screen.lemma_dims(); }
        let ghost w = self.screen.width_spec();
        let ghost h = self.screen.height_spec();
        let ghost hid = height_of(self.layer_stack@, id);
        let ghost wa = area_of(self.layers@[id], area);
        let mut window_area: Option<Rectangle<i32>> = None;
        let mut i: usize = 0;
        while i < self.layer_stack.len()
            invariant
                self.wf(),
                old(self).same_layout(*self),
                self.screen == old(self).screen,
                area_ok(area),
                w == old(self).screen_spec().width_spec(),
                h == old(self).screen_spec().height_spec(),
                hid == height_of(self.layer_stack@, id),
                wa == area_of(self.layers@[id], area),
                i <= self.layer_stack@.len(),
                hid >= 0 ==> self.layers@.contains_key(id),
                window_area is Some <==> (0 <= hid < i),
                window_area matches Some(a) ==> a == wa,
                window_area matches Some(a) ==> small(a.pos) && small(a.size) && a.size.x >= 0 && a.size.y >= 0,
                forall|x: int, y: int| inside(x, y, w, h) ==> #[trigger] self.back_buffer.pixel(x, y)
                    == if 0 <= hid < i {
                        stack_pixel(self.layer_stack@.subrange(hid, i as int), self.layers@, wa, w, h, old(self).back_spec().pixel(x, y), x, y)
                    } else {
                        old(self).back_spec().pixel(x, y)
                    },
            decreases self.layer_stack@.len() - i,
        {
            let lid = self.layer_stack[i];
            assert(self.layers@.contains_key(self.layer_stack@[i as int]));
            let layer = match self.layers.get(&lid) {
                Some(l) => l,
                None => vstd::pervasive::unreached(),
            };
            if lid == id {
                proof { lemma_height_at(self.layer_stack@, i as int); }
                let b = layer.window().base();
                proof { b.lemma_dims(); }
                let mut wnd_area = Rectangle { pos: layer.pos(), size: b.size() };
                if area.size.x >= 0 || area.size.y >= 0 {
                    let shifted = Rectangle { pos: area.pos.plus(wnd_area.pos), size: area.size };
                    proof { crate::graphics::lemma_intersection_within(wnd_area, shifted); }
                    wnd_area = wnd_area.intersection(&shifted);
                }
                window_area = Some(wnd_area);
            }
            match window_area {
                Some(a) => {
                    let ghost before = self.back_buffer;
                    layer.draw_to(&mut self.back_buffer, &a);
                    proof {
                        let t = self.layer_stack@.subrange(hid, i + 1);
                        assert(t.drop_last() =~= self.layer_stack@.subrange(hid, i as int));
                        assert(t.last() == lid);
                        assert forall|x: int, y: int| inside(x, y, w, h) implies #[trigger] self.back_buffer.pixel(x, y)
                            == stack_pixel(t, self.layers@, wa, w, h, old(self).back_spec().pixel(x, y), x, y) by {
                            let prev = self.layer_stack@.subrange(hid, i as int);
                            if i == hid {
                                assert(prev =~= Seq::<u32>::empty());
                            }
                            assert(before.pixel(x, y) == stack_pixel(prev, self.layers@, wa, w, h, old(self).back_spec().pixel(x, y), x, y));
                            assert(stack_pixel(t, self.layers@, wa, w, h, old(self).back_spec().pixel(x, y), x, y)
                                == layer_pixel(self.layers@[lid], wa, w, h, stack_pixel(prev, self.layers@, wa, w, h, old(self).back_spec().pixel(x, y), x, y), x, y));
                        }
                    }
                },
                None => {},
            }
            i = i + 1;
        }
        match window_area {
            Some(a) => {
                let r = self.screen.copy(a.pos, &self.back_buffer, &a);
                proof {
                    assert(r is Ok);
                    assert(self.layer_stack@.subrange(hid, i as int) =~= self.layer_stack@.subrange(hid, self.layer_stack@.len() as int));
                }
            },
            None => {
                proof {
                    if hid >= 0 {
                        assert(hid < self.layer_stack@.len()) by {
                            assert(exists|k: int| 0 <= k < self.layer_stack@.len() && self.layer_stack@[k] == id);
                        }
                    }
                }
            },
        }
    }

    /// Draws layer `id` and the layers above it over the whole window of
    /// layer `id`.
    pub fn draw_id(&mut self, id: u32)
        requires
            old(self).wf(),
        ensures
            final(self).wf(),
            old(self).drew_from(*final(self), id, whole()),
    {
        self.draw_area(id, Rectangle { pos: Vector2D::new(0, 0), size: Vector2D::new(-1, -1) })
    }

    /// Places layer `id` at `new_position`, redraws the area it covered,
    /// then draws it and the layers above it at the new place.
    pub fn move_to(&mut self, id: u32, new_position: Vector2D<i32>)
        requires
            old(self).wf(),
            old(self).can_place(id, Vector2D { x: new_position.x as int, y: new_position.y as int }),
        ensures
            final(self).wf(),
            old(self).moved(*final(self), id, new_position),
    {
        let ghost m0 = *self;
        let layer = self.layer(id);
        let b = layer.window().base();
        proof { b.lemma_dims(); }
        let window_size = b.size();
        let old_pos = layer.pos();
        layer.move_to(new_position);
        proof { Self::lemma_replace_layer(&m0, self, id); }
        let ghost m1 = *self;
        self.draw(&Rectangle { pos: old_pos, size: window_size });
        let ghost m2 = *self;
        self.draw_id(id);
        proof {
            let w = m0.screen_spec().width_spec();
            let h = m0.screen_spec().height_spec();
            assert forall|x: int, y: int| inside(x, y, w, h) implies #[trigger] self.back_spec().pixel(x, y)
                == from_pixel(m0.stack_spec(), m1.layers_spec(), id, whole(), w, h,
                    stack_pixel(m0.stack_spec(), m1.layers_spec(), Rectangle { pos: old_pos, size: window_size }, w, h, m0.back_spec().pixel(x, y), x, y), x, y) by {
                let seen = (m2.back_spec().pixel(x, y),);
            }
            assert forall|x: int, y: int| inside(x, y, w, h) implies #[trigger] self.screen_spec().pixel(x, y)
                == self.screen_spec().pixel(x, y) by {
                let seen = (m2.screen_spec().pixel(x, y), m2.back_spec().pixel(x, y));
            }
        }
    }

    /// Moves layer `id` by `pos_diff`, redrawing as `move_to` does.
    pub fn move_relative(&mut self, id: u32, pos_diff: Vector2D<i32>)
        requires
            old(self).wf(),
            old(self).can_place(id, Vector2D {
                x: old(self).layers_spec()[id].pos_spec().x + pos_diff.x,
                y: old(self).layers_spec()[id].pos_spec().y + pos_diff.y,
            }),
        ensures
            final(self).wf(),
            old(self).moved(*final(self), id, Vector2D {
                x: (old(self).layers_spec()[id].pos_spec().x + pos_diff.x) as i32,
                y: (old(self).layers_spec()[id].pos_spec().y + pos_diff.y) as i32,
            }),
    {
        let ghost m0 = *self;
        let layer = self.layer(id);
        let b = layer.window().base();
        proof { b.lemma_dims(); }
        let window_size = b.size();
        let old_pos = layer.pos();
        layer.move_relative(pos_diff);
        proof { Self::lemma_replace_layer(&m0, self, id); }
        let ghost m1 = *self;
        self.draw(&Rectangle { pos: old_pos, size: window_size });
        let ghost m2 = *self;
        self.draw_id(id);
        proof {
            let w = m0.screen_spec().width_spec();
            let h = m0.screen_spec().height_spec();
            assert forall|x: int, y: int| inside(x, y, w, h) implies #[trigger] self.back_spec().pixel(x, y)
                == from_pixel(m0.stack_spec(), m1.layers_spec(), id, whole(), w, h,
                    stack_pixel(m0.stack_spec(), m1.layers_spec(), Rectangle { pos: old_pos, size: window_size }, w, h, m0.back_spec().pixel(x, y), x, y), x, y) by {
                let seen = (m2.back_spec().pixel(x, y),);
            }
            assert forall|x: int, y: int| inside(x, y, w, h) implies #[trigger] self.screen_spec().pixel(x, y)
                == self.screen_spec().pixel(x, y) by {
                let seen = (m2.screen_spec().pixel(x, y), m2.back_spec().pixel(x, y));
            }
        }
    }

    /// Makes layer `id` the active one (0: none). The previously active
    /// layer's window is shown inactive and redrawn; the new one's window is
    /// shown active, raised to just below the mouse cursor's layer (to the
    /// cursor's height when it was hidden) and redrawn. Returns the layers
    /// whose tasks are to hear that they lost and gained activity.
    pub fn activate(&mut self, id: u32, font: &BitmapFont) -> (r: (Option<u32>, Option<u32>))
        requires
            old(self).wf(),
            font.wf(),
            old(self).active_spec() == id || old(self).active_spec() == 0 || old(self).layers_spec().contains_key(old(self).active_spec()),
            old(self).active_spec() == id || id == 0 || old(self).layers_spec().contains_key(id),
            old(self).stack_spec().len() < 0x7fff_ffff,
        ensures
            final(self).wf(),
            final(self).active_spec() == id,
            old(self).active_spec() == id ==> *final(self) == *old(self) && r == (None::<u32>, None::<u32>),
            old(self).active_spec() != id ==> {
                &&& r.0 == if old(self).active_spec() > 0 { Some(old(self).active_spec()) } else { None }
                &&& r.1 == if id > 0 { Some(id) } else { None }
                &&& final(self).stack_spec() == if id > 0 {
                    raised(old(self).stack_spec(), id, (if height_of(old(self).stack_spec(), id) >= 0 {
                        height_of(old(self).stack_spec(), old(self).mouse_spec()) - 1
                    } else {
                        height_of(old(self).stack_spec(), old(self).mouse_spec())
                    }) as i32)
                } else {
                    old(self).stack_spec()
                }
            },
            final(self).layers_spec().dom() == old(self).layers_spec().dom(),
            forall|k: u32| #[trigger] old(self).layers_spec().contains_key(k) ==> {
                &&& final(self).layers_spec()[k].pos_spec() == old(self).layers_spec()[k].pos_spec()
                &&& final(self).layers_spec()[k].draggable_spec() == old(self).layers_spec()[k].draggable_spec()
                &&& k != id && k != old(self).active_spec() ==> final(self).layers_spec()[k] == old(self).layers_spec()[k]
            },
            final(self).latest_spec() == old(self).latest_spec(),
            final(self).mouse_spec() == old(self).mouse_spec(),
    {
        if self.active_layer == id {
            return (None, None);
        }
        let mut deactivated: Option<u32> = None;
        let prev = self.active_layer;
        if prev > 0 {
            let ghost m0 = *self;
            let layer = self.layer(prev);
            layer.window_mut().deactivate(font);
            proof { Self::lemma_replace_layer(&m0, self, prev); }
            self.draw_id(prev);
            deactivated = Some(prev);
        }
        self.active_layer = id;
        let mut activated: Option<u32> = None;
        if id > 0 {
            let ghost m1 = *self;
            let layer = self.layer(id);
            layer.window_mut().activate(font);
            proof { Self::lemma_replace_layer(&m1, self, id); }
            let shown = self.get_height(id) >= 0;
            let mouse_height = self.get_height(self.mouse_layer);
            if shown {
                self.up_down(id, mouse_height - 1);
            } else {
                self.up_down(id, mouse_height);
            }
            self.draw_id(id);
            activated = Some(id);
        }
        (deactivated, activated)
    }

    /// Hides layer `id` and drops it.
    pub fn remove_layer(&mut self, id: u32)
        requires
            old(self).wf(),
        ensures
            final(self).wf(),
            final(self).stack_spec() == raised(old(self).stack_spec(), id, -1i32),
            final(self).layers_spec() == old(self).layers_spec().remove(id),
            final(self).latest_spec() == old(self).latest_spec(),
            final(self).screen_spec() == old(self).screen_spec(),
            final(self).back_spec() == old(self).back_spec(),
            final(self).mouse_spec() == old(self).mouse_spec(),
            final(self).active_spec() == old(self).active_spec(),
    {
        self.hide_layer(id);
        let ghost s = self.layer_stack@;
        proof {
            if height_of(old(self).stack_spec(), id) >= 0 {
                let h = height_of(old(self).stack_spec(), id);
                assert forall|i: int| 0 <= i < s.len() implies s[i] != id by {
                    let ii = if i < h { i } else { i + 1 };
                    assert(old(self).layer_stack@[ii] != old(self).layer_stack@[h]);
                }
            } else {
                assert forall|i: int| 0 <= i < s.len() implies s[i] != id by {
                    if s[i] == id {
                        assert(exists|k: int| 0 <= k < s.len() && s[k] == id);
                    }
                }
            }
        }
        self.layers.remove(&id);
        proof {
            assert forall|i: int| 0 <= i < self.layer_stack@.len() implies self.layers@.contains_key(#[trigger] self.layer_stack@[i]) by {
                assert(s[i] != id);
            }
            assert forall|k: u32| #[trigger] self.layers@.contains_key(k) implies 0 < k <= self.latest_id
                && layer_ok(self.layers@[k], self.screen.format_spec()) by {
                assert(old(self).layers@.contains_key(k));
            }
        }
    }
}

/// Carries out a layer message on `manager`: moves layer `layer_id` to
/// `pos` or by `pos`, or redraws it whole or over the area at `pos` of size
/// `size` from its corner.
pub fn process_layer_message(manager: &mut LayerManager, op: LayerOperation, layer_id: u32, pos: Vector2D<i32>, size: Vector2D<i32>)
    requires
        old(manager).wf(),
        op == LayerOperation::Move ==> old(manager).can_place(layer_id, Vector2D { x: pos.x as int, y: pos.y as int }),
        op == LayerOperation::MoveRelative ==> old(manager).can_place(layer_id, Vector2D {
            x: old(manager).layers_spec()[layer_id].pos_spec().x + pos.x,
            y: old(manager).layers_spec()[layer_id].pos_spec().y + pos.y,
        }),
        op == LayerOperation::DrawArea ==> area_ok(Rectangle { pos, size }),
    ensures
        final(manager).wf(),
        op == LayerOperation::Move ==> old(manager).moved(*final(manager), layer_id, pos),
        op == LayerOperation::MoveRelative ==> old(manager).moved(*final(manager), layer_id, Vector2D {
            x: (old(manager).layers_spec()[layer_id].pos_spec().x + pos.x) as i32,
            y: (old(manager).layers_spec()[layer_id].pos_spec().y + pos.y) as i32,
        }),
        op == LayerOperation::Draw ==> old(manager).drew_from(*final(manager), layer_id, whole()),
        op == LayerOperation::DrawArea ==> old(manager).drew_from(*final(manager), layer_id, Rectangle { pos, size }),
{
    match op {
        LayerOperation::Move => manager.move_to(layer_id, pos),
        LayerOperation::MoveRelative => manager.move_relative(layer_id, pos),
        LayerOperation::Draw => manager.draw_id(layer_id),
        LayerOperation::DrawArea => manager.draw_area(layer_id, Rectangle { pos, size }),
    }
}

/// The entry for `k` in `m`, to change in place: present exactly when `m`
/// has `k`, and `m` afterwards maps `k` to what the caller leaves in it.
#[verifier::external_body]
fn layer_entry(m: &mut BTreeMap<u32, Layer>, k: u32) -> (r: Option<&mut Layer>)
    ensures
        old(m)@.contains_key(k) <==> r is Some,
        r matches Some(v) ==> *v == old(m)@[k] && final(m)@ == old(m)@.insert(k, *final(v)),
        r is None ==> final(m)@ == old(m)@,
{
    m.get_mut(&k)
}

} // verus!
