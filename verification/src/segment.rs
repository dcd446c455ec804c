//! Segment descriptors of the global descriptor table and the 64-bit task
//! state segment.
use vstd::prelude::*;
use crate::x86_descriptor::{
    code_data_bits, is_descriptor_type_byte, system_type_code, DescriptorType, DescriptorTypeEnum,
    SystemSegmentType,
};

verus! {

/// Selector of the kernel code segment.
pub const KERNEL_CS: u16 = 8;
/// Selector of the kernel stack segment.
pub const KERNEL_SS: u16 = 16;
/// Selector of the task state segment.
pub const TSS_SEL: u16 = 40;

/// The six fields of an eight-byte segment descriptor.
pub struct SegmentFields {
    pub limit_low: u16,
    pub base_low: u16,
    pub base_middle: u8,
    /// Type (bits 0..5), privilege level (bits 5..7), present (bit 7).
    pub etc_1: u8,
    /// Limit bits 16..20 (bits 0..4), available (4), long mode (5),
    /// default operation size (6), granularity (7).
    pub etc_2: u8,
    pub base_high: u8,
}

/// An eight-byte segment descriptor.
#[derive(Clone, Copy, Debug)]
pub struct SegmentDescriptor {
    limit_low: u16,
    base_low: u16,
    base_middle: u8,
    etc_1: u8,
    etc_2: u8,
    base_high: u8,
}

impl View for SegmentDescriptor {
    type V = SegmentFields;

    closed spec fn view(&self) -> SegmentFields {
        SegmentFields {
            limit_low: self.limit_low,
            base_low: self.base_low,
            base_middle: self.base_middle,
            etc_1: self.etc_1,
            etc_2: self.etc_2,
            base_high: self.base_high,
        }
    }
}

/// The `etc_1` byte: type field, privilege level (cut to two bits) and the
/// present bit.
pub open spec fn etc_1_byte(type_byte: u8, dpl: u8) -> u8 {
    (type_byte + 32 * (dpl % 4) + 128) as u8
}

/// Descriptor fields for a segment with the given base and limit: the parts
/// of the base and of the limit's low 20 bits, with `etc_1` and the flag
/// nibble of `etc_2` given.
pub open spec fn fields_for(base: u32, limit: u32, etc_1: u8, flags: u8) -> SegmentFields {
    SegmentFields {
        limit_low: (limit % 0x1_0000) as u16,
        base_low: (base % 0x1_0000) as u16,
        base_middle: ((base / 0x1_0000) % 0x100) as u8,
        etc_1,
        etc_2: ((limit / 0x1_0000) % 16 + 16 * flags) as u8,
        base_high: (base / 0x100_0000) as u8,
    }
}

/// A descriptor made with a 20-bit `limit` gives that limit back.
pub proof fn lemma_limit_roundtrip(base: u32, limit: u32, etc_1: u8, flags: u8)
    requires
        limit < 0x10_0000,
        flags < 16,
    ensures
        (fields_for(base, limit, etc_1, flags).etc_2 % 16) * 0x1_0000 + fields_for(base, limit, etc_1, flags).limit_low == limit,
{
    let f = fields_for(base, limit, etc_1, flags);
    assert((((limit / 0x1_0000) % 16 + 16 * flags) as u8) % 16 == (limit / 0x1_0000) % 16) by (nonlinear_arith)
        requires limit < 0x10_0000, flags < 16;
}

/// The base address a descriptor's fields encode.
pub open spec fn base_of(f: SegmentFields) -> u32 {
    (f.base_high * 0x100_0000 + f.base_middle * 0x1_0000 + f.base_low) as u32
}

impl SegmentDescriptor {
    #[verifier::type_invariant]
    spec fn wf(&self) -> bool {
        is_descriptor_type_byte(self.etc_1 % 32)
    }

    fn with_parts(base: u32, limit: u32, etc_1: u8, flags: u8) -> (r: Self)
        requires
            is_descriptor_type_byte(etc_1 % 32),
            flags < 16,
        ensures
            r@ == fields_for(base, limit, etc_1, flags),
    {
        SegmentDescriptor {
            limit_low: (limit % 0x1_0000) as u16,
            base_low: (base % 0x1_0000) as u16,
            base_middle: ((base / 0x1_0000) % 0x100) as u8,
            etc_1,
            etc_2: ((limit / 0x1_0000) % 16) as u8 + 16 * flags,
            base_high: (base / 0x100_0000) as u8,
        }
    }

    /// A present system-segment descriptor with 32-bit default operation
    /// size and page granularity.
    pub fn system_segment(base: u32, limit: u32, ty: SystemSegmentType, descriptor_privilege_level: u8) -> (r: Self)
        ensures
            r@ == fields_for(base, limit, etc_1_byte(system_type_code(ty), descriptor_privilege_level), 12),
    {
        let t = DescriptorType::system_segment(ty).byte();
        let etc_1 = t + 32 * (descriptor_privilege_level % 4) + 128;
        Self::with_parts(base, limit, etc_1, 12)
    }

    /// The two descriptors of a 64-bit TSS: an available-TSS system segment
    /// for the low 32 bits of `base`, followed by one holding bits 32..64 of
    /// `base` in its first two fields.
    pub fn tss(base: u64, limit: u32) -> (r: [Self; 2])
        ensures
            r[0]@ == fields_for((base % 0x1_0000_0000) as u32, limit,
                etc_1_byte(system_type_code(SystemSegmentType::TSSAvailable), 0), 12),
            r[1]@ == (SegmentFields {
                limit_low: ((base / 0x1_0000_0000) % 0x1_0000) as u16,
                base_low: (base / 0x1_0000_0000_0000) as u16,
                base_middle: 0,
                etc_1: 0,
                etc_2: 0,
                base_high: 0,
            }),
    {
        let first = Self::system_segment((base % 0x1_0000_0000) as u32, limit, SystemSegmentType::TSSAvailable, 0);
        let second = SegmentDescriptor {
            limit_low: ((base / 0x1_0000_0000) % 0x1_0000) as u16,
            base_low: (base / 0x1_0000_0000_0000) as u16,
            base_middle: 0,
            etc_1: 0,
            etc_2: 0,
            base_high: 0,
        };
        [first, second]
    }

    /// A present 64-bit code segment (long mode set, default operation size
    /// clear, page granularity).
    pub fn code_segment(
        base: u32,
        limit: u32,
        accesed: bool,
        readable: bool,
        conforming: bool,
        descriptor_privilege_level: u8,
    ) -> (r: Self)
        ensures
            r@ == fields_for(base, limit,
                etc_1_byte((16 + code_data_bits(accesed, readable, conforming, true)) as u8, descriptor_privilege_level), 10),
    {
        let t = DescriptorType::code_data_segment(accesed, readable, conforming, true).byte();
        let etc_1 = t + 32 * (descriptor_privilege_level % 4) + 128;
        Self::with_parts(base, limit, etc_1, 10)
    }

    /// A present data segment (long mode clear, 32-bit default operation
    /// size, page granularity).
    pub fn data_segment(
        base: u32,
        limit: u32,
        accesed: bool,
        writable: bool,
        direction: bool,
        descriptor_privilege_level: u8,
    ) -> (r: Self)
        ensures
            r@ == fields_for(base, limit,
                etc_1_byte((16 + code_data_bits(accesed, writable, direction, false)) as u8, descriptor_privilege_level), 12),
    {
        let t = DescriptorType::code_data_segment(accesed, writable, direction, false).byte();
        let etc_1 = t + 32 * (descriptor_privilege_level % 4) + 128;
        Self::with_parts(base, limit, etc_1, 12)
    }

    /// The null descriptor: every field zero.
    pub fn default() -> (r: Self)
        ensures
            r@ == (SegmentFields { limit_low: 0, base_low: 0, base_middle: 0, etc_1: 0, etc_2: 0, base_high: 0 }),
    {
        SegmentDescriptor { limit_low: 0, base_low: 0, base_middle: 0, etc_1: 0, etc_2: 0, base_high: 0 }
    }

    /// The 20-bit segment limit: the low limit field, with the low nibble
    /// of `etc_2` (the limit's top 4 bits) above it.
    pub fn limit(&self) -> (r: u32)
        ensures
            r == (self@.etc_2 % 16) * 0x1_0000 + self@.limit_low,
    {
        ((self.etc_2 % 16) as u32) * 0x1_0000 + self.limit_low as u32
    }

    /// The base address.
    pub fn base(&self) -> (r: u32)
        ensures
            r == base_of(self@),
    {
        (self.base_high as u32) * 0x100_0000 + (self.base_middle as u32) * 0x1_0000 + self.base_low as u32
    }

    /// The type field (bits 0..5 of `etc_1`).
    pub fn type_raw(&self) -> (r: DescriptorType)
        ensures
            r@ == self@.etc_1 % 32,
    {
        proof { use_type_invariant(self); }
        DescriptorType::from_byte(self.etc_1 % 32)
    }

    /// The type field split by kind.
    pub fn descriptor_type(&self) -> (r: DescriptorTypeEnum)
        ensures
            self@.etc_1 % 32 >= 16 ==> (r matches DescriptorTypeEnum::CodeData(t) && t@ == self@.etc_1 % 16),
            self@.etc_1 % 32 < 16 ==> (r matches DescriptorTypeEnum::System(t)
                && system_type_code(t) == self@.etc_1 % 32),
    {
        self.type_raw().get()
    }

    pub fn is_system_segment(&self) -> (r: bool)
        ensures
            r == (self@.etc_1 % 32 < 16),
    {
        self.type_raw().is_system_segment()
    }

    pub fn is_code_data_segment(&self) -> (r: bool)
        ensures
            r == (self@.etc_1 % 32 >= 16),
    {
        self.type_raw().is_code_data_segment()
    }

    /// Descriptor privilege level (bits 5..7 of `etc_1`).
    pub fn descriptor_privilege_level(&self) -> (r: u8)
        ensures
            r == (self@.etc_1 / 32) % 4,
    {
        (self.etc_1 / 32) % 4
    }

    /// Present bit (bit 7 of `etc_1`).
    pub fn present(&self) -> (r: bool)
        ensures
            r == (self@.etc_1 >= 128),
    {
        self.etc_1 >= 128
    }

    /// Available-for-software bit (bit 4 of `etc_2`).
    pub fn available(&self) -> (r: bool)
        ensures
            r == ((self@.etc_2 / 16) % 2 == 1),
    {
        (self.etc_2 / 16) % 2 == 1
    }

    /// Long-mode bit (bit 5 of `etc_2`).
    pub fn long_mode(&self) -> (r: bool)
        ensures
            r == ((self@.etc_2 / 32) % 2 == 1),
    {
        (self.etc_2 / 32) % 2 == 1
    }

    /// Default-operation-size bit (bit 6 of `etc_2`).
    pub fn default_operation_size(&self) -> (r: bool)
        ensures
            r == ((self@.etc_2 / 64) % 2 == 1),
    {
        (self.etc_2 / 64) % 2 == 1
    }

    /// Granularity bit (bit 7 of `etc_2`).
    pub fn granalarity(&self) -> (r: bool)
        ensures
            r == (self@.etc_2 >= 128),
    {
        self.etc_2 >= 128
    }
}

/// A code segment built by `code_segment` reads back as a present code/data
/// segment with the given base, the privilege level cut to two bits, long
/// mode on and default operation size off.
pub proof fn lemma_code_segment_fields(
    base: u32,
    limit: u32,
    accesed: bool,
    readable: bool,
    conforming: bool,
    dpl: u8,
)
    ensures
        ({
            let f = fields_for(base, limit,
                etc_1_byte((16 + code_data_bits(accesed, readable, conforming, true)) as u8, dpl), 10);
            &&& base_of(f) == base
            &&& f.etc_1 % 32 >= 16
            &&& (f.etc_1 / 32) % 4 == dpl % 4
            &&& f.etc_1 >= 128
            &&& (f.etc_2 / 32) % 2 == 1
            &&& (f.etc_2 / 64) % 2 == 0
            &&& f.etc_2 >= 128
        }),
{
}

/// A data segment built by `data_segment` reads back as a present code/data
/// segment with the given base and the privilege level cut to two bits, long
/// mode off and default operation size on.
pub proof fn lemma_data_segment_fields(
    base: u32,
    limit: u32,
    accesed: bool,
    writable: bool,
    direction: bool,
    dpl: u8,
)
    ensures
        ({
            let f = fields_for(base, limit,
                etc_1_byte((16 + code_data_bits(accesed, writable, direction, false)) as u8, dpl), 12);
            &&& base_of(f) == base
            &&& f.etc_1 % 32 >= 16
            &&& (f.etc_1 / 32) % 4 == dpl % 4
            &&& f.etc_1 >= 128
            &&& (f.etc_2 / 32) % 2 == 0
            &&& (f.etc_2 / 64) % 2 == 1
            &&& f.etc_2 >= 128
        }),
{
}

/// The 64-bit task state segment.
#[derive(Clone, Copy, Debug)]
pub struct Tss {
    pub reseved0: u32,
    pub rsp0_low: u32,
    pub rsp0_high: u32,
    pub rsp1_low: u32,
    pub rsp1_high: u32,
    pub rsp2_low: u32,
    pub rsp2_high: u32,
    pub reserved1: u32,
    pub reserved2: u32,
    /// The seven interrupt stack pointers, each as a low and a high half.
    pub ists: [u32; 14],
    pub reserved3: u32,
    pub reserved4: u32,
    pub reserved5: u16,
    pub io_base: u16,
}

/// Whether two TSSs agree on every field but the interrupt stacks.
pub open spec fn same_except_ists(a: Tss, b: Tss) -> bool {
    &&& a.reseved0 == b.reseved0
    &&& a.rsp0_low == b.rsp0_low
    &&& a.rsp0_high == b.rsp0_high
    &&& a.rsp1_low == b.rsp1_low
    &&& a.rsp1_high == b.rsp1_high
    &&& a.rsp2_low == b.rsp2_low
    &&& a.rsp2_high == b.rsp2_high
    &&& a.reserved1 == b.reserved1
    &&& a.reserved2 == b.reserved2
    &&& a.reserved3 == b.reserved3
    &&& a.reserved4 == b.reserved4
    &&& a.reserved5 == b.reserved5
    &&& a.io_base == b.io_base
}

impl Tss {
    /// A TSS whose ring-0 stack pointer is `rsp0` and every other field 0.
    pub fn new(rsp0: u64) -> (r: Self)
        ensures
            r.rsp0_low == rsp0 % 0x1_0000_0000,
            r.rsp0_high == rsp0 / 0x1_0000_0000,
            r.reseved0 == 0 && r.rsp1_low == 0 && r.rsp1_high == 0 && r.rsp2_low == 0
                && r.rsp2_high == 0 && r.reserved1 == 0 && r.reserved2 == 0 && r.reserved3 == 0
                && r.reserved4 == 0 && r.reserved5 == 0 && r.io_base == 0,
            forall|i: int| 0 <= i < 14 ==> r.ists[i] == 0,
    {
        Tss {
            reseved0: 0,
            rsp0_low: (rsp0 % 0x1_0000_0000) as u32,
            rsp0_high: (rsp0 / 0x1_0000_0000) as u32,
            rsp1_low: 0,
            rsp1_high: 0,
            rsp2_low: 0,
            rsp2_high: 0,
            reserved1: 0,
            reserved2: 0,
            ists: [0u32; 14],
            reserved3: 0,
            reserved4: 0,
            reserved5: 0,
            io_base: 0,
        }
    }

    /// Sets interrupt stack `ist` (1 to 7) to `stack_addr`. A larger `ist`
    /// leaves the TSS unchanged.
    pub fn set_ist(self, ist: usize, stack_addr: u64) -> (r: Self)
        requires
            ist >= 1,
            (ist - 1) * 2 <= usize::MAX,
        ensures
            same_except_ists(r, self),
            ist > 7 ==> r.ists@ == self.ists@,
            ist <= 7 ==> r.ists@ == self.ists@.update(2 * (ist - 1), (stack_addr % 0x1_0000_0000) as u32)
                .update(2 * (ist - 1) + 1, (stack_addr / 0x1_0000_0000) as u32),
    {
        let mut s = self;
        let index = ist - 1;
        if index * 2 >= 14 {
            s
        } else {
            s.ists[index * 2] = (stack_addr % 0x1_0000_0000) as u32;
            s.ists[index * 2 + 1] = (stack_addr / 0x1_0000_0000) as u32;
            s
        }
    }
}

/// The descriptor a code segment of privilege `dpl` over all memory gets
/// (see `SegmentDescriptor::code_segment`).
pub open spec fn flat_code(dpl: u8) -> SegmentFields {
    fields_for(0, 0xfffff, etc_1_byte((16 + code_data_bits(false, true, false, true)) as u8, dpl), 10)
}

/// The descriptor a data segment of privilege `dpl` over all memory gets
/// (see `SegmentDescriptor::data_segment`).
pub open spec fn flat_data(dpl: u8) -> SegmentFields {
    fields_for(0, 0xfffff, etc_1_byte((16 + code_data_bits(false, true, true, false)) as u8, dpl), 12)
}

/// Fills the descriptor table: kernel code and data (entries 1 and 2),
/// application data and code (entries 3 and 4, in that order, as `sysret`
/// expects), and the two entries of the TSS at `tss_base` with limit
/// `tss_limit` (5 and 6). Gives the table's limit, for loading it.
pub fn setup_segments(gdt: &mut Vec<SegmentDescriptor>, tss_base: u64, tss_limit: u32) -> (r: u16)
    requires
        old(gdt)@.len() == 7,
    ensures
        final(gdt)@.len() == 7,
        final(gdt)@[0] == old(gdt)@[0],
        final(gdt)@[1]@ == flat_code(0),
        final(gdt)@[2]@ == flat_data(0),
        final(gdt)@[3]@ == flat_data(3),
        final(gdt)@[4]@ == flat_code(3),
        final(gdt)@[5]@ == fields_for((tss_base % 0x1_0000_0000) as u32, tss_limit,
            etc_1_byte(system_type_code(SystemSegmentType::TSSAvailable), 0), 12),
        final(gdt)@[6]@ == (SegmentFields {
            limit_low: ((tss_base / 0x1_0000_0000) % 0x1_0000) as u16,
            base_low: (tss_base / 0x1_0000_0000_0000) as u16,
            base_middle: 0,
            etc_1: 0,
            etc_2: 0,
            base_high: 0,
        }),
        r == 8 * 7 - 1,
{
    gdt.set(1, SegmentDescriptor::code_segment(0, 0xfffff, false, true, false, 0));
    gdt.set(2, SegmentDescriptor::data_segment(0, 0xfffff, false, true, true, 0));
    gdt.set(3, SegmentDescriptor::data_segment(0, 0xfffff, false, true, true, 3));
    gdt.set(4, SegmentDescriptor::code_segment(0, 0xfffff, false, true, false, 3));
    let tss = SegmentDescriptor::tss(tss_base, tss_limit);
    gdt.set(5, tss[0]);
    gdt.set(6, tss[1]);
    (8 * gdt.len() - 1) as u16
}

} // verus!
