//! Interrupt descriptor table entries and the interrupt stack frame.
use vstd::prelude::*;
use crate::font::{text_bit, write_string, BitmapFont};
use crate::frame_buffer::{inside, rect_inside, FrameBuffer};
use crate::graphics::{PixelColor, Vector2D};
use crate::x86_descriptor::{is_system_type_code, system_type_code, DescriptorType, SystemSegmentType};

verus! {

/// The attribute bytes of an interrupt descriptor.
#[derive(Clone, Copy, Debug)]
pub struct InterruptDescriptorAttribute {
    etc_1: u8,
    etc_2: u8,
}

impl View for InterruptDescriptorAttribute {
    type V = (u8, u8);

    /// The interrupt-stack byte and the type/privilege/present byte.
    closed spec fn view(&self) -> (u8, u8) {
        (self.etc_1, self.etc_2)
    }
}

/// The attribute bytes for a gate of type `t`, privilege level `dpl` and
/// interrupt stack `ist`; the level is cut to two bits and the stack index
/// to three.
pub open spec fn attribute_bytes(t: SystemSegmentType, dpl: u8, ist: u8) -> (u8, u8) {
    ((ist % 8) as u8, (system_type_code(t) + 32 * (dpl % 4) + 128) as u8)
}

impl InterruptDescriptorAttribute {
    #[verifier::type_invariant]
    spec fn wf(&self) -> bool {
        is_system_type_code(self.etc_2 % 16)
    }

    /// Both bytes zero.
    pub fn const_default() -> (r: Self)
        ensures
            r@ == (0u8, 0u8),
    {
        InterruptDescriptorAttribute { etc_1: 0, etc_2: 0 }
    }

    /// A present gate attribute.
    pub fn new(ty: SystemSegmentType, descriptor_privilege_level: u8, ist: u8) -> (r: Self)
        ensures
            r@ == attribute_bytes(ty, descriptor_privilege_level, ist),
    {
        let t = DescriptorType::system_segment(ty).byte();
        InterruptDescriptorAttribute {
            etc_1: ist % 8,
            etc_2: t + 32 * (descriptor_privilege_level % 4) + 128,
        }
    }

    /// Interrupt stack table index (bits 0..3 of the first byte).
    pub fn interrupt_stack_table(&self) -> (r: u8)
        ensures
            r == self@.0 % 8,
    {
        self.etc_1 % 8
    }

    /// Gate type (bits 0..4 of the second byte).
    pub fn descriptor_type(&self) -> (r: DescriptorType)
        ensures
            r@ == self@.1 % 16,
    {
        proof { use_type_invariant(self); }
        DescriptorType::from_byte(self.etc_2 % 16)
    }

    /// Descriptor privilege level (bits 5..7 of the second byte).
    pub fn descriptor_privilege_level(&self) -> (r: u8)
        ensures
            r == (self@.1 / 32) % 4,
    {
        (self.etc_2 / 32) % 4
    }

    /// Present bit (bit 7 of the second byte).
    pub fn present(&self) -> (r: bool)
        ensures
            r == (self@.1 >= 128),
    {
        self.etc_2 / 128 == 1
    }
}

/// An attribute built by `new` reads back its type, the privilege level cut
/// to two bits, the stack index cut to three bits, and is present.
pub proof fn lemma_attribute_roundtrip(t: SystemSegmentType, dpl: u8, ist: u8)
    ensures
        ({
            let (a, b) = attribute_bytes(t, dpl, ist);
            &&& a % 8 == ist % 8
            &&& b % 16 == system_type_code(t)
            &&& (b / 32) % 4 == dpl % 4
            &&& b >= 128
        }),
{
}

/// One entry of the interrupt descriptor table.
#[derive(Clone, Copy)]
pub struct InterruptDescriptor {
    pub offset_low: u16,
    pub segment_selector: u16,
    pub attr: InterruptDescriptorAttribute,
    pub offset_middle: u16,
    pub offset_high: u32,
    pub reserved: u32,
}

/// The handler address that an interrupt descriptor encodes.
pub open spec fn handler_offset(d: InterruptDescriptor) -> int {
    d.offset_high * 0x1_0000_0000 + d.offset_middle * 0x1_0000 + d.offset_low
}

impl InterruptDescriptor {
    /// Interrupt stack used by the timer interrupt.
    pub const IST_FOR_TIMER: u8 = 1;

    /// An all-zero (not present) descriptor.
    pub fn const_default() -> (r: Self)
        ensures
            r.offset_low == 0 && r.segment_selector == 0 && r.attr@ == (0u8, 0u8) && r.offset_middle == 0
                && r.offset_high == 0 && r.reserved == 0,
    {
        InterruptDescriptor {
            offset_low: 0,
            segment_selector: 0,
            attr: InterruptDescriptorAttribute::const_default(),
            offset_middle: 0,
            offset_high: 0,
            reserved: 0,
        }
    }

    /// Points this entry at the handler at address `offset`, as a present
    /// interrupt gate of privilege level 0 that runs on stack `ist` with code
    /// segment `segment_selector`.
    pub fn set_idt_entry(&mut self, offset: u64, segment_selector: u16, ist: u8)
        ensures
            final(self).attr@ == attribute_bytes(SystemSegmentType::InterruptGate, 0, ist),
            final(self).offset_low == offset % 0x1_0000,
            final(self).offset_middle == (offset / 0x1_0000) % 0x1_0000,
            final(self).offset_high == offset / 0x1_0000_0000,
            final(self).segment_selector == segment_selector,
            final(self).reserved == old(self).reserved,
            handler_offset(*final(self)) == offset,
    {
        let attr = InterruptDescriptorAttribute::new(SystemSegmentType::InterruptGate, 0, ist);
        self.attr = attr;
        self.offset_low = (offset % 0x1_0000) as u16;
        self.offset_middle = ((offset / 0x1_0000) % 0x1_0000) as u16;
        self.offset_high = (offset / 0x1_0000_0000) as u32;
        self.segment_selector = segment_selector;
    }
}

/// Interrupt vectors the kernel installs handlers for.
#[derive(Clone, Copy, Debug, PartialEq, Eq, Structural)]
pub enum InterruptVector {
    XHCI,
    LAPICTimer,
}

impl InterruptVector {
    /// The vector number.
    pub fn vector(&self) -> (r: usize)
        ensures
            *self == InterruptVector::XHCI ==> r == 0x40,
            *self == InterruptVector::LAPICTimer ==> r == 0x41,
    {
        match self {
            InterruptVector::XHCI => 0x40,
            InterruptVector::LAPICTimer => 0x41,
        }
    }
}

/// The frame the processor pushes on an interrupt.
pub struct InterruptFrame {
    pub rip: u64,
    pub cs: u64,
    pub rflags: u64,
    pub rsp: u64,
    pub ss: u64,
}

impl InterruptFrame {
    pub fn rip(&self) -> (r: u64)
        ensures r == self.rip,
    {
        self.rip
    }

    pub fn cs(&self) -> (r: u64)
        ensures r == self.cs,
    {
        self.cs
    }

    pub fn rflags(&self) -> (r: u64)
        ensures r == self.rflags,
    {
        self.rflags
    }

    pub fn rsp(&self) -> (r: u64)
        ensures r == self.rsp,
    {
        self.rsp
    }

    pub fn ss(&self) -> (r: u64)
        ensures r == self.ss,
    {
        self.ss
    }

    /// Whether the interrupted code ran at privilege level 3, so that a
    /// fault in it ends the application instead of the kernel.
    pub fn from_app(&self) -> (r: bool)
        ensures
            r == (self.cs % 4 == 3),
    {
        self.cs % 4 == 3
    }
}

/// The exit code an application killed by a processor exception gets:
/// 128 plus the number of SIGSEGV.
pub const FAULT_EXIT_CODE: i32 = 139;

/// The lower-case hexadecimal digit for `x` (`x < 16`).
pub open spec fn hex_digit(x: nat) -> u8 {
    if x < 10 {
        (48 + x) as u8
    } else {
        (87 + x) as u8
    }
}

/// The hexadecimal digits of the low `width` nibbles of `value`, most
/// significant first.
pub open spec fn hex_digits(value: nat, width: nat) -> Seq<u8>
    decreases width,
{
    if width == 0 {
        Seq::empty()
    } else {
        hex_digits(value / 16, (width - 1) as nat).push(hex_digit(value % 16))
    }
}

/// The text `print_hex` draws for `value`: its low `width` nibbles in
/// lower-case hexadecimal, most significant first.
pub fn hex_text(value: u64, width: u32) -> (r: Vec<u8>)
    requires
        width <= 16,
    ensures
        r@ == hex_digits(value as nat, width as nat),
{
    let mut out: Vec<u8> = Vec::new();
    let mut i: u32 = 0;
    proof {
        let q = (value as nat) / pow16(width);
        lemma_hex_digits_empty(q);
    }
    while i < width
        invariant
            i <= width <= 16,
            out@ == hex_digits((value as nat) / pow16((width - i) as u32), i as nat),
        decreases width - i,
    {
        let shift = width - i - 1;
        let x = (value / pow16_exec(shift)) % 16;
        proof { lemma_hex_step(value, width, i); }
        out.push(if x < 10 { 48 + x as u8 } else { 87 + x as u8 });
        i = i + 1;
    }
    assert(pow16(0) == 1);
    assert((value as nat) / 1 == value as nat);
    out
}

proof fn lemma_hex_digits_empty(v: nat)
    ensures
        hex_digits(v, 0) == Seq::<u8>::empty(),
{
}

/// 16 to the power `n`.
pub open spec fn pow16(n: u32) -> nat
    decreases n,
{
    if n == 0 { 1 } else { 16 * pow16((n - 1) as u32) }
}

proof fn lemma_pow16_bound(n: u32)
    requires
        n <= 15,
    ensures
        1 <= pow16(n) <= 0x1000_0000_0000_0000,
{
    lemma_pow16_mono(n, 15);
    reveal_with_fuel(pow16, 16);
    assert(pow16(15) == 0x1000_0000_0000_0000);
}

proof fn lemma_pow16_mono(a: u32, b: u32)
    requires
        a <= b,
    ensures
        1 <= pow16(a) <= pow16(b),
    decreases b,
{
    if a < b {
        lemma_pow16_mono(a, (b - 1) as u32);
    } else if a > 0 {
        lemma_pow16_mono((a - 1) as u32, (a - 1) as u32);
    }
}

fn pow16_exec(n: u32) -> (r: u64)
    requires
        n <= 15,
    ensures
        r == pow16(n),
        r >= 1,
{
    proof { lemma_pow16_bound(n); }
    let mut r: u64 = 1;
    let mut k: u32 = 0;
    while k < n
        invariant
            k <= n <= 15,
            r == pow16(k),
        decreases n - k,
    {
        proof { lemma_pow16_bound((k + 1) as u32); }
        r = r * 16;
        k = k + 1;
    }
    r
}

proof fn lemma_hex_step(value: u64, width: u32, i: u32)
    requires
        i < width <= 16,
    ensures
        hex_digits((value as nat) / pow16((width - i - 1) as u32), (i + 1) as nat)
            == hex_digits((value as nat) / pow16((width - i) as u32), i as nat).push(
                hex_digit(((value as nat) / pow16((width - i - 1) as u32)) % 16)),
{
    let s = (width - i - 1) as u32;
    lemma_pow16_bound(s);
    assert(pow16((s + 1) as u32) == 16 * pow16(s));
    let q = (value as nat) / pow16(s);
    vstd::arithmetic::div_mod::lemma_div_denominator(value as int, pow16(s) as int, 16);
    assert((value as nat) / pow16((width - i) as u32) == q / 16);
}

/// Draws the low `width` nibbles of `value` in lower-case hexadecimal, in
/// black, from `pos` rightwards; nothing for a `width` of 0 or less.
pub fn print_hex(value: u64, width: i32, pos: Vector2D<i32>, screen: &mut FrameBuffer, font: &BitmapFont)
    requires
        old(screen).wf(),
        font.wf(),
        width <= 16,
        width > 0 ==> rect_inside(pos, Vector2D { x: (8 * width) as i32, y: 16i32 }, old(screen).width_spec(), old(screen).height_spec()),
    ensures
        final(screen).wf(),
        final(screen).width_spec() == old(screen).width_spec(),
        final(screen).height_spec() == old(screen).height_spec(),
        final(screen).format_spec() == old(screen).format_spec(),
        forall|x: int, y: int| inside(x, y, old(screen).width_spec(), old(screen).height_spec()) ==> #[trigger] final(screen).pixel(x, y)
            == if width > 0 && text_bit(font, hex_digits(value as nat, width as nat), x - pos.x, y - pos.y) {
                PixelColor { r: 0, g: 0, b: 0 }
            } else {
                old(screen).pixel(x, y)
            },
{
    if width <= 0 {
        return;
    }
    let text = hex_text(value, width as u32);
    proof { lemma_hex_digits_len(value as nat, width as nat); }
    write_string(screen, pos, text.as_slice(), &PixelColor::new(0, 0, 0), font);
}

/// "CS:RIP".
pub open spec fn cs_rip_label() -> Seq<u8> {
    seq![0x43u8, 0x53u8, 0x3au8, 0x52u8, 0x49u8, 0x50u8]
}

/// "RFLAGS".
pub open spec fn rflags_label() -> Seq<u8> {
    seq![0x52u8, 0x46u8, 0x4cu8, 0x41u8, 0x47u8, 0x53u8]
}

/// "SS:RSP".
pub open spec fn ss_rsp_label() -> Seq<u8> {
    seq![0x53u8, 0x53u8, 0x3au8, 0x52u8, 0x53u8, 0x50u8]
}

/// Whether `print_frame` sets pixel (`x`, `y`): the exception's name at
/// (500, 0); `CS:RIP` with CS (4 digits) and RIP (16 digits) on the next
/// line; `RFLAGS` with RFLAGS; `SS:RSP` with SS and RSP; each line 16
/// pixels below the one before, the values from x = 556 and 596.
pub open spec fn frame_bit(font: &BitmapFont, frame: InterruptFrame, name: Seq<u8>, x: int, y: int) -> bool {
    ||| text_bit(font, name, x - 500, y)
    ||| text_bit(font, cs_rip_label(), x - 500, y - 16)
    ||| text_bit(font, hex_digits(frame.cs as nat, 4), x - 556, y - 16)
    ||| text_bit(font, hex_digits(frame.rip as nat, 16), x - 596, y - 16)
    ||| text_bit(font, rflags_label(), x - 500, y - 32)
    ||| text_bit(font, hex_digits(frame.rflags as nat, 16), x - 556, y - 32)
    ||| text_bit(font, ss_rsp_label(), x - 500, y - 48)
    ||| text_bit(font, hex_digits(frame.ss as nat, 4), x - 556, y - 48)
    ||| text_bit(font, hex_digits(frame.rsp as nat, 16), x - 596, y - 48)
}

/// Draws the name of an exception and the registers of its frame, in
/// black, at the top of the screen from x = 500 (see `frame_bit`).
pub fn print_frame(frame: &InterruptFrame, exp_name: &[u8], screen: &mut FrameBuffer, font: &BitmapFont)
    requires
        old(screen).wf(),
        font.wf(),
        exp_name@.len() <= 0x200_0000,
        500 + 8 * exp_name@.len() <= old(screen).width_spec(),
        724 <= old(screen).width_spec(),
        64 <= old(screen).height_spec(),
    ensures
        final(screen).wf(),
        final(screen).width_spec() == old(screen).width_spec(),
        final(screen).height_spec() == old(screen).height_spec(),
        final(screen).format_spec() == old(screen).format_spec(),
        forall|x: int, y: int| inside(x, y, old(screen).width_spec(), old(screen).height_spec()) ==> #[trigger] final(screen).pixel(x, y)
            == if frame_bit(font, *frame, exp_name@, x, y) { PixelColor { r: 0, g: 0, b: 0 } } else { old(screen).pixel(x, y) },
{
    let black = PixelColor::new(0, 0, 0);
    let cs_rip: [u8; 6] = [0x43, 0x53, 0x3a, 0x52, 0x49, 0x50];
    let rflags: [u8; 6] = [0x52, 0x46, 0x4c, 0x41, 0x47, 0x53];
    let ss_rsp: [u8; 6] = [0x53, 0x53, 0x3a, 0x52, 0x53, 0x50];
    assert(cs_rip@ =~= cs_rip_label());
    assert(rflags@ =~= rflags_label());
    assert(ss_rsp@ =~= ss_rsp_label());
    let cs = hex_text(frame.cs, 4);
    let rip = hex_text(frame.rip, 16);
    let rf = hex_text(frame.rflags, 16);
    let ss = hex_text(frame.ss, 4);
    let rsp = hex_text(frame.rsp, 16);
    proof {
        lemma_hex_digits_len(frame.cs as nat, 4);
        lemma_hex_digits_len(frame.rip as nat, 16);
        lemma_hex_digits_len(frame.rflags as nat, 16);
        lemma_hex_digits_len(frame.ss as nat, 4);
        lemma_hex_digits_len(frame.rsp as nat, 16);
    }
    let ghost w0 = *screen;
    write_string(screen, Vector2D::new(500, 0), exp_name, &black, font);
    let ghost w1 = *screen;
    write_string(screen, Vector2D::new(500, 16), cs_rip.as_slice(), &black, font);
    let ghost w2 = *screen;
    write_string(screen, Vector2D::new(556, 16), cs.as_slice(), &black, font);
    let ghost w3 = *screen;
    write_string(screen, Vector2D::new(596, 16), rip.as_slice(), &black, font);
    let ghost w4 = *screen;
    write_string(screen, Vector2D::new(500, 32), rflags.as_slice(), &black, font);
    let ghost w5 = *screen;
    write_string(screen, Vector2D::new(556, 32), rf.as_slice(), &black, font);
    let ghost w6 = *screen;
    write_string(screen, Vector2D::new(500, 48), ss_rsp.as_slice(), &black, font);
    let ghost w7 = *screen;
    write_string(screen, Vector2D::new(556, 48), ss.as_slice(), &black, font);
    let ghost w8 = *screen;
    write_string(screen, Vector2D::new(596, 48), rsp.as_slice(), &black, font);
    proof {
        assert forall|x: int, y: int| inside(x, y, w0.width_spec(), w0.height_spec()) implies #[trigger] screen.pixel(x, y)
            == if frame_bit(font, *frame, exp_name@, x, y) { black } else { w0.pixel(x, y) } by {
            let p = (w1.pixel(x, y), w2.pixel(x, y), w3.pixel(x, y), w4.pixel(x, y), w5.pixel(x, y), w6.pixel(x, y), w7.pixel(x, y), w8.pixel(x, y));
        }
    }
}

proof fn lemma_hex_digits_len(value: nat, width: nat)
    ensures
        hex_digits(value, width).len() == width,
    decreases width,
{
    if width > 0 {
        lemma_hex_digits_len(value / 16, (width - 1) as nat);
    }
}

} // verus!
