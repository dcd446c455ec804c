//! ELF64 headers of the applications the kernel loads.
use vstd::prelude::*;
use crate::bytes::{le16, le32, le64, read_u16, read_u32, read_u64};
use crate::error::Code;

verus! {

/// Length of a file header.
pub const EHDR_LEN: usize = 64;

/// Length of a program header.
pub const PHDR_LEN: usize = 56;

/// The file header.
#[derive(Clone, Copy, Debug)]
pub struct Elf64Ehdr {
    pub ident: [u8; 16],
    pub kind: u16,
    pub machine: u16,
    pub version: u32,
    pub entry: usize,
    pub phoff: u64,
    pub shoff: u64,
    pub flags: u32,
    pub ehsize: u16,
    pub phentsize: u16,
    pub phnum: u16,
    pub shentsize: u16,
    pub shnum: u16,
    pub shstrndx: u16,
}

impl Elf64Ehdr {
    /// The header at the start of `b`; `None` when `b` is shorter.
    pub fn from_bytes(b: &[u8]) -> (r: Option<Self>)
        ensures
            r is Some <==> b@.len() >= EHDR_LEN,
            r matches Some(h) ==> {
                &&& h.ident@ == b@.subrange(0, 16)
                &&& h.kind == le16(b@, 16)
                &&& h.machine == le16(b@, 18)
                &&& h.version == le32(b@, 20)
                &&& h.entry == le64(b@, 24) as usize
                &&& h.phoff == le64(b@, 32)
                &&& h.shoff == le64(b@, 40)
                &&& h.flags == le32(b@, 48)
                &&& h.ehsize == le16(b@, 52)
                &&& h.phentsize == le16(b@, 54)
                &&& h.phnum == le16(b@, 56)
                &&& h.shentsize == le16(b@, 58)
                &&& h.shnum == le16(b@, 60)
                &&& h.shstrndx == le16(b@, 62)
            },
    {
        if b.len() < EHDR_LEN {
            return None;
        }
        let h = Elf64Ehdr {
            ident: [b[0], b[1], b[2], b[3], b[4], b[5], b[6], b[7], b[8], b[9], b[10], b[11], b[12], b[13], b[14], b[15]],
            kind: read_u16(b, 16),
            machine: read_u16(b, 18),
            version: read_u32(b, 20),
            entry: read_u64(b, 24) as usize,
            phoff: read_u64(b, 32),
            shoff: read_u64(b, 40),
            flags: read_u32(b, 48),
            ehsize: read_u16(b, 52),
            phentsize: read_u16(b, 54),
            phnum: read_u16(b, 56),
            shentsize: read_u16(b, 58),
            shnum: read_u16(b, 60),
            shstrndx: read_u16(b, 62),
        };
        assert(h.ident@ =~= b@.subrange(0, 16));
        Some(h)
    }
}

/// A program header.
#[derive(Clone, Copy, Debug)]
pub struct Elf64Phdr {
    pub kind: u32,
    pub flags: u32,
    pub offset: u64,
    pub vaddr: usize,
    pub paddr: usize,
    pub filesz: u64,
    pub memsz: u64,
    pub align: u64,
}

impl Elf64Phdr {
    /// The program header at the start of `b`; `None` when `b` is shorter.
    pub fn from_bytes(b: &[u8]) -> (r: Option<Self>)
        ensures
            r is Some <==> b@.len() >= PHDR_LEN,
            r matches Some(h) ==> {
                &&& h.kind == le32(b@, 0)
                &&& h.flags == le32(b@, 4)
                &&& h.offset == le64(b@, 8)
                &&& h.vaddr == le64(b@, 16) as usize
                &&& h.paddr == le64(b@, 24) as usize
                &&& h.filesz == le64(b@, 32)
                &&& h.memsz == le64(b@, 40)
                &&& h.align == le64(b@, 48)
            },
    {
        if b.len() < PHDR_LEN {
            return None;
        }
        Some(Elf64Phdr {
            kind: read_u32(b, 0),
            flags: read_u32(b, 4),
            offset: read_u64(b, 8),
            vaddr: read_u64(b, 16) as usize,
            paddr: read_u64(b, 24) as usize,
            filesz: read_u64(b, 32),
            memsz: read_u64(b, 40),
            align: read_u64(b, 48),
        })
    }
}

/// Kinds of program header.
#[derive(Clone, Copy, Debug, PartialEq, Eq, Structural)]
pub enum ProgramType {
    Null,
    Load,
    Dynamic,
    Interp,
    Note,
    Shlib,
    Phdr,
    Tls,
}

impl ProgramType {
    /// The kind's number in a program header.
    pub fn value(&self) -> (r: u32)
        ensures
            r == match self {
                ProgramType::Null => 0u32,
                ProgramType::Load => 1,
                ProgramType::Dynamic => 2,
                ProgramType::Interp => 3,
                ProgramType::Note => 4,
                ProgramType::Shlib => 5,
                ProgramType::Phdr => 6,
                ProgramType::Tls => 7,
            },
    {
        match self {
            ProgramType::Null => 0,
            ProgramType::Load => 1,
            ProgramType::Dynamic => 2,
            ProgramType::Interp => 3,
            ProgramType::Note => 4,
            ProgramType::Shlib => 5,
            ProgramType::Phdr => 6,
            ProgramType::Tls => 7,
        }
    }
}

/// An entry of the dynamic section.
#[derive(Clone, Copy, Debug)]
pub struct Elf64Dyn {
    pub tag: i64,
    pub val: u64,
}

/// Tags of dynamic-section entries.
#[derive(Clone, Copy, Debug, PartialEq, Eq, Structural)]
pub enum DT {
    Null,
    Rela,
    Relasz,
    Relaent,
}

impl DT {
    /// The tag's number in a dynamic-section entry.
    pub fn value(&self) -> (r: i64)
        ensures
            r == match self {
                DT::Null => 0i64,
                DT::Rela => 7,
                DT::Relasz => 8,
                DT::Relaent => 9,
            },
    {
        match self {
            DT::Null => 0,
            DT::Rela => 7,
            DT::Relasz => 8,
            DT::Relaent => 9,
        }
    }
}

/// A relocation with addend.
#[derive(Clone, Copy, Debug)]
pub struct Elf64Rela {
    pub offset: u64,
    pub info: u32,
    pub addend: i32,
}

/// The `kind` of an executable file.
pub const ET_EXEC: u16 = 2;

/// Where applications are linked: the upper half of the address space.
pub const APP_BASE: u64 = 0xffff_8000_0000_0000;

/// The program header whose bytes begin at `o` of `s`.
pub open spec fn phdr_at(s: Seq<u8>, o: int) -> Elf64Phdr {
    Elf64Phdr {
        kind: le32(s, o) as u32,
        flags: le32(s, o + 4) as u32,
        offset: le64(s, o + 8) as u64,
        vaddr: le64(s, o + 16) as usize,
        paddr: le64(s, o + 24) as usize,
        filesz: le64(s, o + 32) as u64,
        memsz: le64(s, o + 40) as u64,
        align: le64(s, o + 48) as u64,
    }
}

/// The `phnum` program headers of `s`, from `phoff` on.
pub open spec fn phdrs_in(s: Seq<u8>, phoff: int, phnum: int) -> Seq<Elf64Phdr> {
    Seq::new(phnum as nat, |k: int| phdr_at(s, phoff + PHDR_LEN * k))
}

/// The program headers that `file` says it has: `phnum` of them from
/// `phoff` on; `None` when they do not lie in `file`.
pub fn program_headers(file: &[u8], ehdr: &Elf64Ehdr) -> (r: Option<Vec<Elf64Phdr>>)
    ensures
        r is Some <==> ehdr.phoff + PHDR_LEN * ehdr.phnum <= file@.len(),
        r matches Some(v) ==> v@ == phdrs_in(file@, ehdr.phoff as int, ehdr.phnum as int),
{
    let n = ehdr.phnum as u64;
    let len = file.len() as u64;
    if ehdr.phoff > len || n * 56 > len - ehdr.phoff {
        return None;
    }
    let mut v: Vec<Elf64Phdr> = Vec::new();
    let mut k: u64 = 0;
    while k < n
        invariant
            n == ehdr.phnum,
            ehdr.phoff + 56 * n <= file@.len(),
            len == file@.len(),
            file@.len() <= usize::MAX,
            k <= n,
            v@.len() == k,
            forall|j: int| 0 <= j < k ==> #[trigger] v@[j] == phdr_at(file@, ehdr.phoff + PHDR_LEN * j),
        decreases n - k,
    {
        assert(ehdr.phoff + 56 * k + 56 <= ehdr.phoff + 56 * n) by (nonlinear_arith)
            requires k < n;
        let o = (ehdr.phoff + 56 * k) as usize;
        let part = vstd::slice::slice_subrange(file, o, o + 56);
        let h = match Elf64Phdr::from_bytes(part) {
            Some(h) => h,
            None => return None,
        };
        proof {
            assert forall|d: int| 0 <= d < 56 implies part@[d] == file@[o + d] by {}
            assert(h == phdr_at(file@, o as int));
        }
        v.push(h);
        k = k + 1;
    }
    assert(v@ =~= phdrs_in(file@, ehdr.phoff as int, ehdr.phnum as int));
    Some(v)
}

/// The address of the first loadable segment, 0 when there is none.
pub open spec fn first_load(phdrs: Seq<Elf64Phdr>) -> usize
    decreases phdrs.len(),
{
    if phdrs.len() == 0 {
        0
    } else if phdrs[0].kind == 1 {
        phdrs[0].vaddr
    } else {
        first_load(phdrs.drop_first())
    }
}

/// The address of the first loadable segment, 0 when there is none.
pub fn get_first_load_address(phdrs: &Vec<Elf64Phdr>) -> (r: usize)
    ensures
        r == first_load(phdrs@),
{
    let mut i: usize = 0;
    assert(phdrs@.skip(0) =~= phdrs@);
    while i < phdrs.len()
        invariant
            i <= phdrs@.len(),
            first_load(phdrs@) == first_load(phdrs@.skip(i as int)),
        decreases phdrs@.len() - i,
    {
        assert(phdrs@.skip(i as int).drop_first() =~= phdrs@.skip(i + 1));
        if phdrs[i].kind == 1 {
            return phdrs[i].vaddr;
        }
        i = i + 1;
    }
    0
}

/// The end of the last loadable segment: the largest address plus memory
/// size (modulo 2^64) of the loadable segments, 0 when there is none.
pub open spec fn last_load_end(phdrs: Seq<Elf64Phdr>) -> u64
    decreases phdrs.len(),
{
    if phdrs.len() == 0 {
        0
    } else {
        let rest = last_load_end(phdrs.drop_last());
        let p = phdrs.last();
        let end = ((p.vaddr + p.memsz) % 0x1_0000_0000_0000_0000) as u64;
        if p.kind == 1 && end > rest { end } else { rest }
    }
}

/// The end of the last loadable segment (see `last_load_end`).
pub fn elf_last_address(phdrs: &Vec<Elf64Phdr>) -> (r: u64)
    ensures
        r == last_load_end(phdrs@),
{
    let mut last: u64 = 0;
    let mut i: usize = 0;
    while i < phdrs.len()
        invariant
            i <= phdrs@.len(),
            last == last_load_end(phdrs@.take(i as int)),
        decreases phdrs@.len() - i,
    {
        let p = phdrs[i];
        let va: u64 = p.vaddr as u64;
        let ms: u64 = p.memsz;
        let end = va.wrapping_add(ms);
        assert(end == ((va + ms) % 0x1_0000_0000_0000_0000) as u64) by (bit_vector)
            requires end == va.wrapping_add(ms);
        if p.kind == 1 && end > last {
            last = end;
        }
        proof {
            assert(phdrs@.take(i + 1).drop_last() =~= phdrs@.take(i as int));
            assert(phdrs@.take(i + 1).last() == p);
        }
        i = i + 1;
    }
    assert(phdrs@.take(phdrs@.len() as int) =~= phdrs@);
    last
}

/// How many 4 KiB pages a segment covers, counted from the page its address
/// lies in.
pub fn segment_pages(phdr: &Elf64Phdr) -> (r: u64)
    ensures
        r == ((phdr.vaddr % 0x1000) + phdr.memsz + 4095) / 4096,
{
    let lo: u64 = (phdr.vaddr % 0x1000) as u64;
    let total: u128 = lo as u128 + phdr.memsz as u128 + 4095;
    (total / 4096) as u64
}

/// `s` begins with the ELF magic number.
pub open spec fn has_elf_magic(s: Seq<u8>) -> bool {
    s.len() >= 4 && s.subrange(0, 4) == seq![0x7fu8, 0x45, 0x4c, 0x46]
}

/// `s` holds a file header and the program headers it names.
pub open spec fn headers_fit(s: Seq<u8>) -> bool {
    s.len() >= EHDR_LEN && le64(s, 32) + PHDR_LEN * le16(s, 56) <= s.len()
}

/// The program headers of the file `s`.
pub open spec fn file_phdrs(s: Seq<u8>) -> Seq<Elf64Phdr> {
    phdrs_in(s, le64(s, 32), le16(s, 56))
}

/// `s` is an executable whose first loadable segment lies in the upper half.
pub open spec fn loadable_app(s: Seq<u8>) -> bool {
    &&& has_elf_magic(s)
    &&& headers_fit(s)
    &&& le16(s, 16) == ET_EXEC
    &&& first_load(file_phdrs(s)) >= APP_BASE
}

/// Checks an application's file before its segments are loaded: it begins
/// with the ELF magic and holds its headers (else `InvalidFile`), and it is
/// an executable whose first loadable segment lies in the upper half (else
/// `InvalidFormat`). Gives the header, the program headers and the end of
/// the last segment.
pub fn check_app(file: &[u8]) -> (r: Result<(Elf64Ehdr, Vec<Elf64Phdr>, u64), Code>)
    ensures
        r is Ok <==> loadable_app(file@),
        r == Err::<(Elf64Ehdr, Vec<Elf64Phdr>, u64), Code>(Code::InvalidFile) <==> !(has_elf_magic(file@) && headers_fit(file@)),
        r == Err::<(Elf64Ehdr, Vec<Elf64Phdr>, u64), Code>(Code::InvalidFormat) <==> has_elf_magic(file@) && headers_fit(file@) && !loadable_app(file@),
        r matches Ok((h, ps, last)) ==> {
            &&& h.kind == ET_EXEC
            &&& h.entry == le64(file@, 24) as usize
            &&& h.phoff == le64(file@, 32)
            &&& h.phnum == le16(file@, 56)
            &&& ps@ == file_phdrs(file@)
            &&& last == last_load_end(ps@)
        },
{
    if file.len() < 4 || file[0] != 0x7f || file[1] != 0x45 || file[2] != 0x4c || file[3] != 0x46 {
        proof {
            if file@.len() >= 4 {
                assert(file@.subrange(0, 4) != seq![0x7fu8, 0x45, 0x4c, 0x46] || (file[0] == 0x7f && file[1] == 0x45 && file[2] == 0x4c && file[3] == 0x46));
            }
        }
        return Err(Code::InvalidFile);
    }
    assert(file@.subrange(0, 4) =~= seq![0x7fu8, 0x45, 0x4c, 0x46]);
    let h = match Elf64Ehdr::from_bytes(file) {
        Some(h) => h,
        None => return Err(Code::InvalidFile),
    };
    let ps = match program_headers(file, &h) {
        Some(ps) => ps,
        None => return Err(Code::InvalidFile),
    };
    if h.kind != ET_EXEC {
        return Err(Code::InvalidFormat);
    }
    if (get_first_load_address(&ps) as u64) < APP_BASE {
        return Err(Code::InvalidFormat);
    }
    let last = elf_last_address(&ps);
    Ok((h, ps, last))
}

/// What a loadable segment puts in memory: `filesz` bytes of the file from
/// `offset` on, then zeros up to `memsz` bytes.
pub open spec fn segment_image_of(s: Seq<u8>, p: Elf64Phdr) -> Seq<u8> {
    s.subrange(p.offset as int, p.offset + p.filesz) + Seq::new((p.memsz - p.filesz) as nat, |i: int| 0u8)
}

/// The bytes a loadable segment puts in memory (see `segment_image_of`);
/// `None` when its file bytes do not lie in `file`.
pub fn segment_image(file: &[u8], phdr: &Elf64Phdr) -> (r: Option<Vec<u8>>)
    requires
        phdr.filesz <= phdr.memsz,
        phdr.memsz <= usize::MAX,
    ensures
        r is Some <==> phdr.offset + phdr.filesz <= file@.len(),
        r matches Some(v) ==> v@ == segment_image_of(file@, *phdr),
{
    let flen: usize = file.len();
    if phdr.offset > flen as u64 || phdr.filesz > flen as u64 - phdr.offset {
        return None;
    }
    let off = phdr.offset as usize;
    let fsz = phdr.filesz as usize;
    let msz = phdr.memsz as usize;
    let mut v: Vec<u8> = Vec::new();
    let mut i: usize = 0;
    while i < msz
        invariant
            off == phdr.offset,
            fsz == phdr.filesz,
            msz == phdr.memsz,
            fsz <= msz,
            off + fsz <= file@.len(),
            file@.len() <= usize::MAX,
            i <= msz,
            v@.len() == i,
            forall|j: int| 0 <= j < i ==> #[trigger] v@[j] == (if j < fsz { file@[off + j] } else { 0u8 }),
        decreases msz - i,
    {
        if i < fsz {
            v.push(file[off + i]);
        } else {
            v.push(0u8);
        }
        i = i + 1;
    }
    assert(v@ =~= segment_image_of(file@, *phdr));
    Some(v)
}

} // verus!
