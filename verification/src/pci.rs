//! PCI devices as the bus scan found them, and the choice of the USB host
//! controller among them.
use vstd::prelude::*;
use crate::interrupt::{hex_digits, hex_text};
use crate::logger::{dec_digits, push_dec};
use crate::command::push_all;

verus! {

/// The class code of a PCI device: base class, subclass and programming
/// interface.
#[derive(Clone, Copy, Debug, PartialEq, Eq, Structural)]
pub struct ClassCode {
    pub base: u8,
    pub sub: u8,
    pub interface: u8,
}

impl ClassCode {
    /// Whether the base class is `b`.
    pub fn match_base(&self, b: u8) -> (r: bool)
        ensures
            r == (self.base == b),
    {
        b == self.base
    }

    /// Whether the base class and subclass are `b` and `s`.
    pub fn match_base_sub(&self, b: u8, s: u8) -> (r: bool)
        ensures
            r == (self.base == b && self.sub == s),
    {
        self.match_base(b) && s == self.sub
    }

    /// Whether base class, subclass and interface are `b`, `s` and `i`.
    pub fn match_class(&self, b: u8, s: u8, i: u8) -> (r: bool)
        ensures
            r == (self.base == b && self.sub == s && self.interface == i),
    {
        self.match_base_sub(b, s) && i == self.interface
    }
}

/// A device found on the bus, with its vendor id as read from its
/// configuration space.
#[derive(Clone, Copy, Debug, PartialEq, Eq, Structural)]
pub struct Device {
    pub bus: u8,
    pub device: u8,
    pub function: u8,
    pub header_type: u8,
    pub class_code: ClassCode,
    pub vendor_id: u16,
}

/// Intel's PCI vendor id.
pub const VENDOR_INTEL: u16 = 0x8086;

/// Whether `d` is a USB 3 host controller (xHC): class 0x0c, subclass
/// 0x03, interface 0x30.
pub open spec fn is_xhc(d: Device) -> bool {
    d.class_code.base == 0x0c && d.class_code.sub == 0x03 && d.class_code.interface == 0x30
}

/// Whether `d` is an xHC made by Intel.
pub open spec fn is_intel_xhc(d: Device) -> bool {
    is_xhc(d) && d.vendor_id == VENDOR_INTEL
}

/// Picks the host controller to drive: the first Intel xHC when there is
/// one, else the last xHC found, else none.
pub fn find_xhc(devices: &Vec<Device>) -> (r: Option<usize>)
    ensures
        match r {
            Some(i) => {
                &&& i < devices@.len()
                &&& is_xhc(devices@[i as int])
                &&& if exists|j: int| 0 <= j < devices@.len() && is_intel_xhc(#[trigger] devices@[j]) {
                    &&& is_intel_xhc(devices@[i as int])
                    &&& forall|j: int| 0 <= j < i ==> !is_intel_xhc(#[trigger] devices@[j])
                } else {
                    forall|j: int| i < j < devices@.len() ==> !is_xhc(#[trigger] devices@[j])
                }
            },
            None => forall|j: int| 0 <= j < devices@.len() ==> !is_xhc(#[trigger] devices@[j]),
        },
{
    let mut found: Option<usize> = None;
    let mut intel_found = false;
    let mut k: usize = 0;
    while k < devices.len()
        invariant
            k <= devices@.len(),
            intel_found ==> (found matches Some(i) && i < k && is_intel_xhc(devices@[i as int])
                && forall|j: int| 0 <= j < i ==> !is_intel_xhc(#[trigger] devices@[j])),
            !intel_found ==> forall|j: int| 0 <= j < k ==> !is_intel_xhc(#[trigger] devices@[j]),
            !intel_found ==> match found {
                Some(i) => i < k && is_xhc(devices@[i as int]) && forall|j: int| i < j < k ==> !is_xhc(#[trigger] devices@[j]),
                None => forall|j: int| 0 <= j < k ==> !is_xhc(#[trigger] devices@[j]),
            },
        decreases devices@.len() - k,
    {
        let d = &devices[k];
        if d.class_code.match_class(0x0c, 0x03, 0x30) && !intel_found {
            if d.vendor_id == VENDOR_INTEL {
                intel_found = true;
            }
            found = Some(k);
        }
        k = k + 1;
    }
    proof {
        if !intel_found {
            assert(!exists|j: int| 0 <= j < devices@.len() && is_intel_xhc(#[trigger] devices@[j]));
        }
    }
    found
}

/// The line `lspci` prints for `d`: bus, device and function, vendor id,
/// header type and class code, in hexadecimal but the function, as
/// "bb:dd.f vend=vvvv head=hh class=bb.ss:ii".
pub open spec fn device_line(d: Device) -> Seq<u8> {
    hex_digits(d.bus as nat, 2) + seq![0x3au8] + hex_digits(d.device as nat, 2) + seq![0x2eu8]
        + dec_digits(d.function as nat)
        + seq![0x20u8, 0x76, 0x65, 0x6e, 0x64, 0x3d] + hex_digits(d.vendor_id as nat, 4)
        + seq![0x20u8, 0x68, 0x65, 0x61, 0x64, 0x3d] + hex_digits(d.header_type as nat, 2)
        + seq![0x20u8, 0x63, 0x6c, 0x61, 0x73, 0x73, 0x3d] + hex_digits(d.class_code.base as nat, 2)
        + seq![0x2eu8] + hex_digits(d.class_code.sub as nat, 2)
        + seq![0x3au8] + hex_digits(d.class_code.interface as nat, 2) + seq![0x0au8]
}

/// The lines of the first `n` devices of `ds`.
pub open spec fn device_lines(ds: Seq<Device>, n: int) -> Seq<u8>
    decreases n,
{
    if n <= 0 {
        Seq::empty()
    } else {
        device_lines(ds, n - 1) + device_line(ds[n - 1])
    }
}

/// Appends the `lspci` line of `d`.
fn push_device_line(out: &mut Vec<u8>, d: Device)
    ensures
        final(out)@ == old(out)@ + device_line(d),
{
    let bus = hex_text(d.bus as u64, 2);
    push_all(out, bus.as_slice());
    let colon: [u8; 1] = [0x3a];
    push_all(out, &colon);
    let dev = hex_text(d.device as u64, 2);
    push_all(out, dev.as_slice());
    let dot: [u8; 1] = [0x2e];
    push_all(out, &dot);
    push_dec(out, d.function as u64);
    let vend: [u8; 6] = [0x20, 0x76, 0x65, 0x6e, 0x64, 0x3d];
    push_all(out, &vend);
    let vendor = hex_text(d.vendor_id as u64, 4);
    push_all(out, vendor.as_slice());
    let head: [u8; 6] = [0x20, 0x68, 0x65, 0x61, 0x64, 0x3d];
    push_all(out, &head);
    let header = hex_text(d.header_type as u64, 2);
    push_all(out, header.as_slice());
    let class: [u8; 7] = [0x20, 0x63, 0x6c, 0x61, 0x73, 0x73, 0x3d];
    push_all(out, &class);
    let base = hex_text(d.class_code.base as u64, 2);
    push_all(out, base.as_slice());
    push_all(out, &dot);
    let sub = hex_text(d.class_code.sub as u64, 2);
    push_all(out, sub.as_slice());
    push_all(out, &colon);
    let interface = hex_text(d.class_code.interface as u64, 2);
    push_all(out, interface.as_slice());
    let nl: [u8; 1] = [0x0a];
    push_all(out, &nl);
    proof {
        assert(colon@ =~= seq![0x3au8]);
        assert(dot@ =~= seq![0x2eu8]);
        assert(nl@ =~= seq![0x0au8]);
        assert(vend@ =~= seq![0x20u8, 0x76, 0x65, 0x6e, 0x64, 0x3d]);
        assert(head@ =~= seq![0x20u8, 0x68, 0x65, 0x61, 0x64, 0x3d]);
        assert(class@ =~= seq![0x20u8, 0x63, 0x6c, 0x61, 0x73, 0x73, 0x3d]);
        assert(final(out)@ =~= old(out)@ + device_line(d));
    }
}

/// What `lspci` prints: a line for each device, in the order found.
pub fn lspci_output(devices: &Vec<Device>) -> (r: Vec<u8>)
    ensures
        r@ == device_lines(devices@, devices@.len() as int),
{
    let mut out: Vec<u8> = Vec::new();
    let mut k: usize = 0;
    while k < devices.len()
        invariant
            k <= devices@.len(),
            out@ == device_lines(devices@, k as int),
        decreases devices@.len() - k,
    {
        push_device_line(&mut out, devices[k]);
        k = k + 1;
    }
    out
}

} // verus!
