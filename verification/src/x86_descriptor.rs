//! The type field of x86 segment and gate descriptors.
//!
//! The five-bit type field says in bit 4 whether the descriptor is a
//! code/data segment (bit set) or a system segment (bit clear); bits 0..4
//! then hold the code/data flags or the system-segment type.
use vstd::prelude::*;

verus! {

/// 1 for `true`, 0 for `false`.
pub open spec fn flag(b: bool) -> u8 {
    if b { 1 } else { 0 }
}

/// The four code/data flag bits: accessed (bit 0), readable/writable (bit 1),
/// direction/conforming (bit 2) and executable (bit 3).
pub open spec fn code_data_bits(accessed: bool, rw: bool, dc: bool, executable: bool) -> u8 {
    (flag(accessed) + 2 * flag(rw) + 4 * flag(dc) + 8 * flag(executable)) as u8
}

/// The kinds of system segment and gate descriptor.
#[derive(Clone, Copy, Debug, PartialEq, Eq, Structural)]
pub enum SystemSegmentType {
    Upper8Byte,
    LDT,
    TSSAvailable,
    TSSBusy,
    CallGate,
    InterruptGate,
    TrapGate,
}

/// The four-bit code the hardware uses for each system-segment type.
pub open spec fn system_type_code(t: SystemSegmentType) -> u8 {
    match t {
        SystemSegmentType::Upper8Byte => 0,
        SystemSegmentType::LDT => 2,
        SystemSegmentType::TSSAvailable => 9,
        SystemSegmentType::TSSBusy => 11,
        SystemSegmentType::CallGate => 12,
        SystemSegmentType::InterruptGate => 14,
        SystemSegmentType::TrapGate => 15,
    }
}

/// Whether `v` is the code of some system-segment type.
pub open spec fn is_system_type_code(v: u8) -> bool {
    v == 0 || v == 2 || v == 9 || v == 11 || v == 12 || v == 14 || v == 15
}

/// Whether `v` is a well-formed five-bit descriptor type field.
pub open spec fn is_descriptor_type_byte(v: u8) -> bool {
    v < 32 && (v >= 16 || is_system_type_code(v))
}

impl SystemSegmentType {
    /// The hardware code of this type.
    pub fn code(&self) -> (r: u8)
        ensures
            r == system_type_code(*self),
            is_system_type_code(r),
    {
        match self {
            SystemSegmentType::Upper8Byte => 0,
            SystemSegmentType::LDT => 2,
            SystemSegmentType::TSSAvailable => 9,
            SystemSegmentType::TSSBusy => 11,
            SystemSegmentType::CallGate => 12,
            SystemSegmentType::InterruptGate => 14,
            SystemSegmentType::TrapGate => 15,
        }
    }

    /// The type whose code is `value`. Other values are not system-segment
    /// types.
    pub fn from_code(value: u8) -> (r: Self)
        requires
            is_system_type_code(value),
        ensures
            system_type_code(r) == value,
    {
        if value == 0 {
            SystemSegmentType::Upper8Byte
        } else if value == 2 {
            SystemSegmentType::LDT
        } else if value == 9 {
            SystemSegmentType::TSSAvailable
        } else if value == 11 {
            SystemSegmentType::TSSBusy
        } else if value == 12 {
            SystemSegmentType::CallGate
        } else if value == 14 {
            SystemSegmentType::InterruptGate
        } else {
            SystemSegmentType::TrapGate
        }
    }

    /// The type whose code is `value`, or `None` when no type has it.
    pub fn try_from_code(value: u8) -> (r: Option<Self>)
        ensures
            r is Some <==> is_system_type_code(value),
            r matches Some(t) ==> system_type_code(t) == value,
    {
        if value == 0 || value == 2 || value == 9 || value == 11 || value == 12 || value == 14
            || value == 15 {
            Some(Self::from_code(value))
        } else {
            None
        }
    }
}

/// The code of a system type determines the type.
pub proof fn lemma_system_type_code_injective(a: SystemSegmentType, b: SystemSegmentType)
    ensures
        system_type_code(a) == system_type_code(b) ==> a == b,
{
}

/// The four flag bits of a code or data segment.
#[derive(Clone, Copy, Debug)]
pub struct CodeDataSegmentType(u8);

impl View for CodeDataSegmentType {
    type V = u8;

    closed spec fn view(&self) -> u8 {
        self.0
    }
}

impl CodeDataSegmentType {
    /// Builds the flags from their four bits.
    pub fn new(accessed: bool, rw: bool, dc: bool, executable: bool) -> (r: Self)
        ensures
            r@ == code_data_bits(accessed, rw, dc, executable),
            r@ < 16,
    {
        let mut data: u8 = 0;
        if accessed {
            data = data + 1;
        }
        if rw {
            data = data + 2;
        }
        if dc {
            data = data + 4;
        }
        if executable {
            data = data + 8;
        }
        CodeDataSegmentType(data)
    }

    /// The flags held in the low bits of `value`, as they are.
    pub fn from_byte(value: u8) -> (r: Self)
        ensures
            r@ == value,
    {
        CodeDataSegmentType(value)
    }

    /// The raw byte.
    pub fn byte(&self) -> (r: u8)
        ensures
            r == self@,
    {
        self.0
    }

    /// Accessed bit (bit 0).
    pub fn is_accessed(&self) -> (r: bool)
        ensures
            r == (self@ % 2 == 1),
    {
        self.0 % 2 == 1
    }

    /// Readable (code) or writable (data) bit (bit 1).
    pub fn is_readable_writable(&self) -> (r: bool)
        ensures
            r == ((self@ / 2) % 2 == 1),
    {
        (self.0 / 2) % 2 == 1
    }

    /// Grow-down (data) or conforming (code) bit (bit 2).
    pub fn is_growdown_conforming(&self) -> (r: bool)
        ensures
            r == ((self@ / 4) % 2 == 1),
    {
        (self.0 / 4) % 2 == 1
    }

    /// Executable bit (bit 3): set for code segments.
    pub fn is_executable(&self) -> (r: bool)
        ensures
            r == ((self@ / 8) % 2 == 1),
    {
        (self.0 / 8) % 2 == 1
    }
}

/// Each flag given to `CodeDataSegmentType::new` is read back by its
/// accessor.
pub proof fn lemma_code_data_roundtrip(accessed: bool, rw: bool, dc: bool, executable: bool)
    ensures
        ({
            let v = code_data_bits(accessed, rw, dc, executable);
            &&& (v % 2 == 1) == accessed
            &&& ((v / 2) % 2 == 1) == rw
            &&& ((v / 4) % 2 == 1) == dc
            &&& ((v / 8) % 2 == 1) == executable
        }),
{
}

/// A descriptor type field: either a system-segment type or the flags of a
/// code/data segment.
#[derive(Clone, Copy, Debug)]
pub struct DescriptorType(u8);

impl View for DescriptorType {
    type V = u8;

    closed spec fn view(&self) -> u8 {
        self.0
    }
}

impl DescriptorType {
    #[verifier::type_invariant]
    spec fn wf(&self) -> bool {
        is_descriptor_type_byte(self.0)
    }

    /// Every descriptor type is a well-formed type field.
    pub fn byte(&self) -> (r: u8)
        ensures
            r == self@,
            is_descriptor_type_byte(r),
    {
        proof { use_type_invariant(self); }
        self.0
    }

    /// A code/data segment type with the given flags (bit 4 set).
    pub fn code_data_segment(accesed: bool, rw: bool, dc: bool, executable: bool) -> (r: Self)
        ensures
            r@ == 16 + code_data_bits(accesed, rw, dc, executable),
    {
        let t = CodeDataSegmentType::new(accesed, rw, dc, executable);
        DescriptorType(16 + t.byte())
    }

    /// A system segment type (bit 4 clear).
    pub fn system_segment(t: SystemSegmentType) -> (r: Self)
        ensures
            r@ == system_type_code(t),
    {
        DescriptorType(t.code())
    }

    /// Reads the five low bits of `value` as a type field. Bits 5..8 are
    /// ignored. A value with bit 4 clear must hold a system-segment code.
    pub fn from_byte(value: u8) -> (r: Self)
        requires
            (value / 16) % 2 == 1 || is_system_type_code(value % 16),
        ensures
            r@ == value % 32,
    {
        if (value / 16) % 2 == 1 {
            let v = value % 16;
            Self::code_data_segment(v % 2 == 1, (v / 2) % 2 == 1, (v / 4) % 2 == 1, (v / 8) % 2 == 1)
        } else {
            Self::system_segment(SystemSegmentType::from_code(value % 16))
        }
    }

    /// Whether this is a code/data segment type.
    pub fn is_code_data_segment(&self) -> (r: bool)
        ensures
            r == (self@ >= 16),
    {
        proof { use_type_invariant(self); }
        (self.0 / 16) % 2 == 1
    }

    /// Whether this is a system segment type.
    pub fn is_system_segment(&self) -> (r: bool)
        ensures
            r == (self@ < 16),
    {
        !self.is_code_data_segment()
    }

    /// The code/data flags, when this is a code/data segment type.
    pub fn as_code_data_segment(&self) -> (r: Option<CodeDataSegmentType>)
        ensures
            r is Some <==> self@ >= 16,
            r matches Some(t) ==> t@ == self@ % 16,
    {
        if self.is_code_data_segment() {
            Some(CodeDataSegmentType(self.0 % 16))
        } else {
            None
        }
    }

    /// The system-segment type, when this is one.
    pub fn as_system_segment(&self) -> (r: Option<SystemSegmentType>)
        ensures
            r is Some <==> self@ < 16,
            r matches Some(t) ==> system_type_code(t) == self@,
    {
        proof { use_type_invariant(self); }
        if self.is_system_segment() {
            Some(SystemSegmentType::from_code(self.0 % 16))
        } else {
            None
        }
    }

    /// Which of the two kinds this type is, with its contents.
    pub fn get(&self) -> (r: DescriptorTypeEnum)
        ensures
            self@ >= 16 ==> (r matches DescriptorTypeEnum::CodeData(t) && t@ == self@ % 16),
            self@ < 16 ==> (r matches DescriptorTypeEnum::System(t) && system_type_code(t) == self@),
    {
        proof { use_type_invariant(self); }
        if self.is_code_data_segment() {
            DescriptorTypeEnum::CodeData(CodeDataSegmentType(self.0 % 16))
        } else {
            DescriptorTypeEnum::System(SystemSegmentType::from_code(self.0 % 16))
        }
    }
}

impl From<DescriptorType> for u8 {
    fn from(value: DescriptorType) -> (r: u8) {
        value.byte()
    }
}

impl vstd::std_specs::convert::FromSpecImpl<DescriptorType> for u8 {
    open spec fn obeys_from_spec() -> bool {
        true
    }

    open spec fn from_spec(v: DescriptorType) -> u8 {
        v@
    }
}

impl From<CodeDataSegmentType> for u8 {
    fn from(value: CodeDataSegmentType) -> (r: u8) {
        value.0
    }
}

impl vstd::std_specs::convert::FromSpecImpl<CodeDataSegmentType> for u8 {
    open spec fn obeys_from_spec() -> bool {
        true
    }

    open spec fn from_spec(v: CodeDataSegmentType) -> u8 {
        v@
    }
}

impl From<u8> for CodeDataSegmentType {
    fn from(value: u8) -> (r: CodeDataSegmentType)
        ensures
            r@ == value,
    {
        CodeDataSegmentType(value)
    }
}

impl vstd::std_specs::convert::FromSpecImpl<u8> for CodeDataSegmentType {
    open spec fn obeys_from_spec() -> bool {
        true
    }

    closed spec fn from_spec(v: u8) -> CodeDataSegmentType {
        CodeDataSegmentType(v)
    }
}

/// A descriptor type split by kind.
#[derive(Clone, Copy, Debug)]
pub enum DescriptorTypeEnum {
    System(SystemSegmentType),
    CodeData(CodeDataSegmentType),
}

/// Reading a type field back from its byte gives the same field: the byte
/// of a descriptor type satisfies `from_byte`'s precondition, and
/// `from_byte` returns a type with that byte.
pub proof fn lemma_descriptor_type_byte_roundtrip(v: u8)
    requires
        is_descriptor_type_byte(v),
    ensures
        (v / 16) % 2 == 1 || is_system_type_code(v % 16),
        v % 32 == v,
{
}

} // verus!
