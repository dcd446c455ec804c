//! Error codes.
use vstd::prelude::*;
use vstd::string::StringSliceAdditionalSpecFns;
use vstd::utf8::encode_utf8;
use crate::logger::{dec_digits, push_dec};
use crate::command::push_all;

verus! {

/// What went wrong.
#[derive(Clone, Copy, Debug, PartialEq, Eq, Structural)]
pub enum Code {
    Full,
    Empty,
    NoEnoughMemory,
    IndexOutOfRange,
    HostControllerNotHalted,
    InvalidSlotID,
    PortNotConnected,
    InvalidEndpointNumber,
    TransferRingNotSet,
    AlreadyAllocated,
    NotImplemented,
    InvalidDescriptor,
    BufferTooSmall,
    UnknownDevice,
    NoCorrespondingSetupStage,
    TransferFailed,
    InvalidPhase,
    UnknownXHCISpeedID,
    NoWaiter,
    NoPCIMSI,
    UnknownPixelFormat,
    NoSuchTask,
    InvalidFormat,
    FrameTooSmall,
    InvalidFile,
    IsDirectory,
    NoSuchEntry,
    FreeTypeError,
    EndpointNotInCharge,
}

impl Code {
    /// The code's name, as it is printed.
    pub fn name(&self) -> (r: &'static str)
        ensures
            r@ == code_name(*self),
    {
        match self {
            Code::Full => "Full",
            Code::Empty => "Empty",
            Code::NoEnoughMemory => "NoEnoughMemory",
            Code::IndexOutOfRange => "IndexOutOfRange",
            Code::HostControllerNotHalted => "HostControllerNotHalted",
            Code::InvalidSlotID => "InvalidSlotID",
            Code::PortNotConnected => "PortNotConnected",
            Code::InvalidEndpointNumber => "InvalidEndpointNumber",
            Code::TransferRingNotSet => "TransferRingNotSet",
            Code::AlreadyAllocated => "AlreadyAllocated",
            Code::NotImplemented => "NotImplemented",
            Code::InvalidDescriptor => "InvalidDescriptor",
            Code::BufferTooSmall => "BufferTooSmall",
            Code::UnknownDevice => "UnknownDevice",
            Code::NoCorrespondingSetupStage => "NoCorrespondingSetupStage",
            Code::TransferFailed => "TransferFailed",
            Code::InvalidPhase => "InvalidPhase",
            Code::UnknownXHCISpeedID => "UnknownXHCISpeedID",
            Code::NoWaiter => "NoWaiter",
            Code::NoPCIMSI => "NoPCIMSI",
            Code::UnknownPixelFormat => "UnknownPixelFormat",
            Code::NoSuchTask => "NoSuchTask",
            Code::InvalidFormat => "InvalidFormat",
            Code::FrameTooSmall => "FrameTooSmall",
            Code::InvalidFile => "InvalidFile",
            Code::IsDirectory => "IsDirectory",
            Code::NoSuchEntry => "NoSuchEntry",
            Code::FreeTypeError => "FreeTypeError",
            Code::EndpointNotInCharge => "EndpointNotInCharge",
        }
    }
}

/// The printed name of each code.
pub open spec fn code_name(c: Code) -> Seq<char> {
    match c {
        Code::Full => "Full"@,
        Code::Empty => "Empty"@,
        Code::NoEnoughMemory => "NoEnoughMemory"@,
        Code::IndexOutOfRange => "IndexOutOfRange"@,
        Code::HostControllerNotHalted => "HostControllerNotHalted"@,
        Code::InvalidSlotID => "InvalidSlotID"@,
        Code::PortNotConnected => "PortNotConnected"@,
        Code::InvalidEndpointNumber => "InvalidEndpointNumber"@,
        Code::TransferRingNotSet => "TransferRingNotSet"@,
        Code::AlreadyAllocated => "AlreadyAllocated"@,
        Code::NotImplemented => "NotImplemented"@,
        Code::InvalidDescriptor => "InvalidDescriptor"@,
        Code::BufferTooSmall => "BufferTooSmall"@,
        Code::UnknownDevice => "UnknownDevice"@,
        Code::NoCorrespondingSetupStage => "NoCorrespondingSetupStage"@,
        Code::TransferFailed => "TransferFailed"@,
        Code::InvalidPhase => "InvalidPhase"@,
        Code::UnknownXHCISpeedID => "UnknownXHCISpeedID"@,
        Code::NoWaiter => "NoWaiter"@,
        Code::NoPCIMSI => "NoPCIMSI"@,
        Code::UnknownPixelFormat => "UnknownPixelFormat"@,
        Code::NoSuchTask => "NoSuchTask"@,
        Code::InvalidFormat => "InvalidFormat"@,
        Code::FrameTooSmall => "FrameTooSmall"@,
        Code::InvalidFile => "InvalidFile"@,
        Code::IsDirectory => "IsDirectory"@,
        Code::NoSuchEntry => "NoSuchEntry"@,
        Code::FreeTypeError => "FreeTypeError"@,
        Code::EndpointNotInCharge => "EndpointNotInCharge"@,
    }
}

/// The text of an error with code `code`, raised at line `line` of `file`
/// with message `msg`: "<code> in <file> at <line>", then a colon, a line
/// break, four spaces and the message when there is one.
pub open spec fn error_text(code: Code, file: Seq<u8>, line: u32, msg: Seq<u8>) -> Seq<u8> {
    encode_utf8(code_name(code)) + seq![0x20u8, 0x69, 0x6e, 0x20] + file + seq![0x20u8, 0x61, 0x74, 0x20]
        + dec_digits(line as nat)
        + if msg.len() == 0 { Seq::<u8>::empty() } else { seq![0x3au8, 0x0a, 0x20, 0x20, 0x20, 0x20] + msg }
}

/// An error: its code, a message, and the source location that raised it.
#[derive(Clone, Copy, Debug)]
pub struct Error {
    code: Code,
    msg: &'static str,
    line: u32,
    file: &'static str,
}

impl Error {
    pub fn new(code: Code, msg: &'static str, file: &'static str, line: u32) -> (r: Self)
        ensures
            r.code_spec() == code,
            r.msg_spec()@ == msg@,
            r.file_spec()@ == file@,
            r.line_spec() == line,
    {
        Error { code, msg, line, file }
    }

    pub closed spec fn code_spec(&self) -> Code {
        self.code
    }

    pub closed spec fn msg_spec(&self) -> &'static str {
        self.msg
    }

    pub closed spec fn file_spec(&self) -> &'static str {
        self.file
    }

    pub closed spec fn line_spec(&self) -> u32 {
        self.line
    }

    pub fn cause(&self) -> (r: Code)
        ensures
            r == self.code_spec(),
    {
        self.code
    }

    pub fn message(&self) -> (r: &'static str)
        ensures
            r@ == self.msg_spec()@,
    {
        self.msg
    }

    pub fn file(&self) -> (r: &'static str)
        ensures
            r@ == self.file_spec()@,
    {
        self.file
    }

    pub fn line(&self) -> (r: u32)
        ensures
            r == self.line_spec(),
    {
        self.line
    }

    /// The error as it is printed (see `error_text`).
    pub fn text(&self) -> (r: Vec<u8>)
        ensures
            r@ == error_text(self.code_spec(), self.file_spec().spec_bytes(), self.line_spec(), self.msg_spec().spec_bytes()),
    {
        let mut out: Vec<u8> = Vec::new();
        push_all(&mut out, self.code.name().as_bytes());
        let sep_in: [u8; 4] = [0x20, 0x69, 0x6e, 0x20];
        push_all(&mut out, &sep_in);
        push_all(&mut out, self.file.as_bytes());
        let sep_at: [u8; 4] = [0x20, 0x61, 0x74, 0x20];
        push_all(&mut out, &sep_at);
        push_dec(&mut out, self.line as u64);
        let msg = self.msg.as_bytes();
        if msg.len() > 0 {
            let sep_msg: [u8; 6] = [0x3a, 0x0a, 0x20, 0x20, 0x20, 0x20];
            push_all(&mut out, &sep_msg);
            push_all(&mut out, msg);
        }
        proof {
            assert(sep_in@ =~= seq![0x20u8, 0x69, 0x6e, 0x20]);
            assert(sep_at@ =~= seq![0x20u8, 0x61, 0x74, 0x20]);
        }
        out
    }
}


/// The codes of the USB driver written in C++: `Success`, then the same
/// errors as `Code`, in the same order.
#[derive(Clone, Copy, Debug, PartialEq, Eq, Structural)]
pub enum CxxCode {
    Success,
    Full,
    Empty,
    NoEnoughMemory,
    IndexOutOfRange,
    HostControllerNotHalted,
    InvalidSlotID,
    PortNotConnected,
    InvalidEndpointNumber,
    TransferRingNotSet,
    AlreadyAllocated,
    NotImplemented,
    InvalidDescriptor,
    BufferTooSmall,
    UnknownDevice,
    NoCorrespondingSetupStage,
    TransferFailed,
    InvalidPhase,
    UnknownXHCISpeedID,
    NoWaiter,
    NoPCIMSI,
    UnknownPixelFormat,
    NoSuchTask,
    InvalidFormat,
    FrameTooSmall,
    InvalidFile,
    IsDirectory,
    NoSuchEntry,
    FreeTypeError,
    EndpointNotInCharge,
}

/// The error that a C++ code other than `Success` stands for.
pub open spec fn cxx_code_spec(c: CxxCode) -> Code
    recommends
        c != CxxCode::Success,
{
    match c {
        CxxCode::Success => Code::Full,
        CxxCode::Full => Code::Full,
        CxxCode::Empty => Code::Empty,
        CxxCode::NoEnoughMemory => Code::NoEnoughMemory,
        CxxCode::IndexOutOfRange => Code::IndexOutOfRange,
        CxxCode::HostControllerNotHalted => Code::HostControllerNotHalted,
        CxxCode::InvalidSlotID => Code::InvalidSlotID,
        CxxCode::PortNotConnected => Code::PortNotConnected,
        CxxCode::InvalidEndpointNumber => Code::InvalidEndpointNumber,
        CxxCode::TransferRingNotSet => Code::TransferRingNotSet,
        CxxCode::AlreadyAllocated => Code::AlreadyAllocated,
        CxxCode::NotImplemented => Code::NotImplemented,
        CxxCode::InvalidDescriptor => Code::InvalidDescriptor,
        CxxCode::BufferTooSmall => Code::BufferTooSmall,
        CxxCode::UnknownDevice => Code::UnknownDevice,
        CxxCode::NoCorrespondingSetupStage => Code::NoCorrespondingSetupStage,
        CxxCode::TransferFailed => Code::TransferFailed,
        CxxCode::InvalidPhase => Code::InvalidPhase,
        CxxCode::UnknownXHCISpeedID => Code::UnknownXHCISpeedID,
        CxxCode::NoWaiter => Code::NoWaiter,
        CxxCode::NoPCIMSI => Code::NoPCIMSI,
        CxxCode::UnknownPixelFormat => Code::UnknownPixelFormat,
        CxxCode::NoSuchTask => Code::NoSuchTask,
        CxxCode::InvalidFormat => Code::InvalidFormat,
        CxxCode::FrameTooSmall => Code::FrameTooSmall,
        CxxCode::InvalidFile => Code::InvalidFile,
        CxxCode::IsDirectory => Code::IsDirectory,
        CxxCode::NoSuchEntry => Code::NoSuchEntry,
        CxxCode::FreeTypeError => Code::FreeTypeError,
        CxxCode::EndpointNotInCharge => Code::EndpointNotInCharge,
    }
}

impl CxxCode {
    /// The error this code stands for; `Success` stands for none.
    pub fn to_code(&self) -> (r: Code)
        requires
            *self != CxxCode::Success,
        ensures
            r == cxx_code_spec(*self),
    {
        match self {
            CxxCode::Success => Code::Full,
            CxxCode::Full => Code::Full,
            CxxCode::Empty => Code::Empty,
            CxxCode::NoEnoughMemory => Code::NoEnoughMemory,
            CxxCode::IndexOutOfRange => Code::IndexOutOfRange,
            CxxCode::HostControllerNotHalted => Code::HostControllerNotHalted,
            CxxCode::InvalidSlotID => Code::InvalidSlotID,
            CxxCode::PortNotConnected => Code::PortNotConnected,
            CxxCode::InvalidEndpointNumber => Code::InvalidEndpointNumber,
            CxxCode::TransferRingNotSet => Code::TransferRingNotSet,
            CxxCode::AlreadyAllocated => Code::AlreadyAllocated,
            CxxCode::NotImplemented => Code::NotImplemented,
            CxxCode::InvalidDescriptor => Code::InvalidDescriptor,
            CxxCode::BufferTooSmall => Code::BufferTooSmall,
            CxxCode::UnknownDevice => Code::UnknownDevice,
            CxxCode::NoCorrespondingSetupStage => Code::NoCorrespondingSetupStage,
            CxxCode::TransferFailed => Code::TransferFailed,
            CxxCode::InvalidPhase => Code::InvalidPhase,
            CxxCode::UnknownXHCISpeedID => Code::UnknownXHCISpeedID,
            CxxCode::NoWaiter => Code::NoWaiter,
            CxxCode::NoPCIMSI => Code::NoPCIMSI,
            CxxCode::UnknownPixelFormat => Code::UnknownPixelFormat,
            CxxCode::NoSuchTask => Code::NoSuchTask,
            CxxCode::InvalidFormat => Code::InvalidFormat,
            CxxCode::FrameTooSmall => Code::FrameTooSmall,
            CxxCode::InvalidFile => Code::InvalidFile,
            CxxCode::IsDirectory => Code::IsDirectory,
            CxxCode::NoSuchEntry => Code::NoSuchEntry,
            CxxCode::FreeTypeError => Code::FreeTypeError,
            CxxCode::EndpointNotInCharge => Code::EndpointNotInCharge,
        }
    }
}

/// What a result of the C++ driver means: `Ok` for `Success`, else the
/// error its code stands for.
pub fn cxx_result(code: CxxCode) -> (r: Result<(), Code>)
    ensures
        code == CxxCode::Success ==> r == Ok::<(), Code>(()),
        code != CxxCode::Success ==> r == Err::<(), Code>(cxx_code_spec(code)),
{
    match code {
        CxxCode::Success => Ok(()),
        _ => Err(code.to_code()),
    }
}

} // verus!
