//! x86-64 four-level paging: the page-map entry encoding and the split of a
//! linear address into its per-level table indices.
use vstd::prelude::*;
use crate::bitfield::{
    bit_of, bits_of, get_bit, get_bits, lemma_bits_bound, lemma_get_set_disjoint, lemma_get_set_same,
    lemma_mask_one, mask, set_bit, set_bits, with_bit, with_bits,
};
use crate::error::Code;
use crate::task::{FileMapping, Task};
use crate::terminal::APP_STACK_ADDR;

verus! {

/// Number of entries in every level of page map.
pub const PAGE_MAP_ENTRIES: usize = 512;

/// One entry of a page map (PML4, PDP, PD or PT).
#[derive(Clone, Copy, Debug)]
pub struct PageMapEntry {
    pub data: u64,
}

impl PageMapEntry {
    /// Present bit (bit 0).
    pub fn persent(&self) -> (r: bool)
        ensures r == bit_of(self.data, 0),
    {
        get_bit(self.data, 0)
    }

    pub fn set_present(&mut self, value: bool)
        ensures final(self).data == with_bit(old(self).data, 0, value),
    {
        self.data = set_bit(self.data, 0, value);
    }

    /// Read/write bit (bit 1).
    pub fn writable(&self) -> (r: bool)
        ensures r == bit_of(self.data, 1),
    {
        get_bit(self.data, 1)
    }

    pub fn set_writable(&mut self, value: bool)
        ensures final(self).data == with_bit(old(self).data, 1, value),
    {
        self.data = set_bit(self.data, 1, value);
    }

    /// User/supervisor bit (bit 2).
    pub fn user(&self) -> (r: bool)
        ensures r == bit_of(self.data, 2),
    {
        get_bit(self.data, 2)
    }

    pub fn set_user(&mut self, value: bool)
        ensures final(self).data == with_bit(old(self).data, 2, value),
    {
        self.data = set_bit(self.data, 2, value);
    }

    /// Page-level write-through bit (bit 3).
    pub fn write_through(&self) -> (r: bool)
        ensures r == bit_of(self.data, 3),
    {
        get_bit(self.data, 3)
    }

    pub fn set_write_through(&mut self, value: bool)
        ensures final(self).data == with_bit(old(self).data, 3, value),
    {
        self.data = set_bit(self.data, 3, value);
    }

    /// Page-level cache-disable bit (bit 4).
    pub fn cache_disable(&self) -> (r: bool)
        ensures r == bit_of(self.data, 4),
    {
        get_bit(self.data, 4)
    }

    pub fn set_cache_disable(&mut self, value: bool)
        ensures final(self).data == with_bit(old(self).data, 4, value),
    {
        self.data = set_bit(self.data, 4, value);
    }

    /// Accessed bit (bit 5).
    pub fn accessed(&self) -> (r: bool)
        ensures r == bit_of(self.data, 5),
    {
        get_bit(self.data, 5)
    }

    pub fn set_accessed(&mut self, value: bool)
        ensures final(self).data == with_bit(old(self).data, 5, value),
    {
        self.data = set_bit(self.data, 5, value);
    }

    /// Dirty bit (bit 6).
    pub fn dirty(&self) -> (r: bool)
        ensures r == bit_of(self.data, 6),
    {
        get_bit(self.data, 6)
    }

    pub fn set_dirty(&mut self, value: bool)
        ensures final(self).data == with_bit(old(self).data, 6, value),
    {
        self.data = set_bit(self.data, 6, value);
    }

    /// Page-size bit (bit 7).
    pub fn huge_page(&self) -> (r: bool)
        ensures r == bit_of(self.data, 7),
    {
        get_bit(self.data, 7)
    }

    pub fn set_huge_page(&mut self, value: bool)
        ensures final(self).data == with_bit(old(self).data, 7, value),
    {
        self.data = set_bit(self.data, 7, value);
    }

    /// Global bit (bit 8).
    pub fn global(&self) -> (r: bool)
        ensures r == bit_of(self.data, 8),
    {
        get_bit(self.data, 8)
    }

    pub fn set_global(&mut self, value: bool)
        ensures final(self).data == with_bit(old(self).data, 8, value),
    {
        self.data = set_bit(self.data, 8, value);
    }

    /// Physical frame number the entry points at (bits 12..52).
    pub fn addr(&self) -> (r: u64)
        ensures r == bits_of(self.data, 12, 52),
    {
        get_bits(self.data, 12, 52)
    }

    pub fn set_addr(&mut self, value: u64)
        ensures final(self).data == with_bits(old(self).data, 12, 52, value),
    {
        self.data = set_bits(self.data, 12, 52, value);
    }

    /// Points this entry at the page map that starts at physical address
    /// `table_addr`: the frame number `table_addr >> 12` goes into the
    /// address field.
    pub fn set_pointer(&mut self, table_addr: u64)
        ensures final(self).data == with_bits(old(self).data, 12, 52, table_addr >> 12),
    {
        self.set_addr(table_addr >> 12)
    }

    /// Physical address of the page map this entry points at.
    pub fn pointer_addr(&self) -> (r: u64)
        ensures r == bits_of(self.data, 12, 52) * 4096,
    {
        let a = self.addr();
        proof {
            lemma_bits_bound(self.data, 12, 52);
            assert(1u64 << 40u64 == 0x100_0000_0000) by (bit_vector);
        }
        a * 4096
    }
}

/// Writing a flag of a page-map entry and reading it back gives the value
/// written, and leaves the physical address and every other flag as it was.
pub proof fn lemma_entry_flag_roundtrip(data: u64, flag: u64, value: bool, other: u64)
    requires
        flag < 9,
        other < 9,
        other != flag,
    ensures
        bit_of(with_bit(data, flag, value), flag) == value,
        bit_of(with_bit(data, flag, value), other) == bit_of(data, other),
        bits_of(with_bit(data, flag, value), 12, 52) == bits_of(data, 12, 52),
{
    lemma_get_set_same(data, flag, (flag + 1) as u64, if value { 1 } else { 0 });
    lemma_mask_one();
    lemma_get_set_disjoint(data, flag, (flag + 1) as u64, if value { 1 } else { 0 }, other, (other + 1) as u64);
    lemma_get_set_disjoint(data, flag, (flag + 1) as u64, if value { 1 } else { 0 }, 12, 52);
}

/// Writing the address field and reading it back gives the low 40 bits of
/// the value written, and the flag bits below bit 12 are unchanged.
pub proof fn lemma_entry_addr_roundtrip(data: u64, value: u64, flag: u64)
    requires
        flag < 12,
    ensures
        bits_of(with_bits(data, 12, 52, value), 12, 52) == value & mask(40),
        bit_of(with_bits(data, 12, 52, value), flag) == bit_of(data, flag),
{
    lemma_get_set_same(data, 12, 52, value);
    lemma_get_set_disjoint(data, 12, 52, value, flag, (flag + 1) as u64);
}

/// A linear address split into the indices of the four paging levels.
#[derive(Clone, Copy, Debug)]
pub struct LinearAddress4Level {
    pub addr: u64,
}

/// The bit range `lo..hi` that paging level `level` (0 = page offset,
/// 1 = PT, 2 = PD, 3 = PDP, 4 = PML4) reads from a linear address.
pub open spec fn part_range(level: i32) -> (u64, u64) {
    if level == 0 {
        (0, 12)
    } else if level == 1 {
        (12, 21)
    } else if level == 2 {
        (21, 30)
    } else if level == 3 {
        (30, 39)
    } else {
        (39, 48)
    }
}

/// The bit range that `set_part` writes for level `level`.
pub open spec fn set_part_range(level: i32) -> (u64, u64) {
    if level == 0 {
        (0, 12)
    } else {
        part_range(level)
    }
}

/// The index that the linear address `addr` selects at paging level `level`;
/// 0 for a level that does not exist.
pub open spec fn part_of(addr: u64, level: i32) -> u64 {
    if 0 <= level <= 4 {
        bits_of(addr, part_range(level).0, part_range(level).1)
    } else {
        0
    }
}

/// `addr` with its index at paging level `level` replaced by `value`;
/// unchanged for a level that does not exist.
pub open spec fn with_part(addr: u64, level: i32, value: u64) -> u64 {
    if 0 <= level <= 4 {
        with_bits(addr, set_part_range(level).0, set_part_range(level).1, value)
    } else {
        addr
    }
}

impl LinearAddress4Level {
    /// Offset inside the 4 KiB page: bits 0 to 11, the bits `set_offset`
    /// writes.
    pub fn offset(&self) -> (r: u64)
        ensures r == bits_of(self.addr, 0, 12),
    {
        get_bits(self.addr, 0, 12)
    }

    pub fn set_offset(&mut self, value: u64)
        ensures final(self).addr == with_bits(old(self).addr, 0, 12, value),
    {
        self.addr = set_bits(self.addr, 0, 12, value)
    }

    /// Page-table index (bits 12..21).
    pub fn page(&self) -> (r: u64)
        ensures r == bits_of(self.addr, 12, 21),
    {
        get_bits(self.addr, 12, 21)
    }

    pub fn set_page(&mut self, value: u64)
        ensures final(self).addr == with_bits(old(self).addr, 12, 21, value),
    {
        self.addr = set_bits(self.addr, 12, 21, value)
    }

    /// Page-directory index (bits 21..30).
    pub fn dir(&self) -> (r: u64)
        ensures r == bits_of(self.addr, 21, 30),
    {
        get_bits(self.addr, 21, 30)
    }

    pub fn set_dir(&mut self, value: u64)
        ensures final(self).addr == with_bits(old(self).addr, 21, 30, value),
    {
        self.addr = set_bits(self.addr, 21, 30, value)
    }

    /// Page-directory-pointer index (bits 30..39).
    pub fn pdp(&self) -> (r: u64)
        ensures r == bits_of(self.addr, 30, 39),
    {
        get_bits(self.addr, 30, 39)
    }

    pub fn set_pdp(&mut self, value: u64)
        ensures final(self).addr == with_bits(old(self).addr, 30, 39, value),
    {
        self.addr = set_bits(self.addr, 30, 39, value)
    }

    /// PML4 index (bits 39..48).
    pub fn pml4(&self) -> (r: u64)
        ensures r == bits_of(self.addr, 39, 48),
    {
        get_bits(self.addr, 39, 48)
    }

    pub fn set_pml4(&mut self, value: u64)
        ensures final(self).addr == with_bits(old(self).addr, 39, 48, value),
    {
        self.addr = set_bits(self.addr, 39, 48, value)
    }

    /// The sign-extension bits (48..64).
    pub fn rem(&self) -> (r: u64)
        ensures r == bits_of(self.addr, 48, 64),
    {
        get_bits(self.addr, 48, 64)
    }

    pub fn set_rem(&mut self, value: u64)
        ensures final(self).addr == with_bits(old(self).addr, 48, 64, value),
    {
        self.addr = set_bits(self.addr, 48, 64, value)
    }

    /// The index at paging level `page_map_level`; 0 for any other level.
    pub fn part(&self, page_map_level: i32) -> (r: u64)
        ensures r == part_of(self.addr, page_map_level),
    {
        match page_map_level {
            0 => self.offset(),
            1 => self.page(),
            2 => self.dir(),
            3 => self.pdp(),
            4 => self.pml4(),
            _ => 0,
        }
    }

    /// Replaces the index at paging level `page_map_level`; any other level
    /// leaves the address unchanged.
    pub fn set_part(&mut self, page_map_level: i32, value: u64)
        ensures final(self).addr == with_part(old(self).addr, page_map_level, value),
    {
        match page_map_level {
            0 => self.set_offset(value),
            1 => self.set_page(value),
            2 => self.set_dir(value),
            3 => self.set_pdp(value),
            4 => self.set_pml4(value),
            _ => {},
        }
    }
}

/// Setting the index of a table level (1 to 4) and reading it back gives the
/// low nine bits of the value, and the index of every other table level is
/// unchanged.
pub proof fn lemma_part_roundtrip(addr: u64, level: i32, value: u64, other: i32)
    requires
        1 <= level <= 4,
        1 <= other <= 4,
        other != level,
    ensures
        part_of(with_part(addr, level, value), level) == value & mask(9),
        part_of(with_part(addr, level, value), other) == part_of(addr, other),
{
    let (lo, hi) = part_range(level);
    let (lo2, hi2) = part_range(other);
    lemma_get_set_same(addr, lo, hi, value);
    lemma_get_set_disjoint(addr, lo, hi, value, lo2, hi2);
}

/// Whether the range of addresses of `m` holds `addr`.
pub open spec fn in_map(m: FileMapping, addr: u64) -> bool {
    m.vaddr_begin <= addr < m.vaddr_end
}

/// The first of `fmaps` whose range of addresses holds `addr`, or `None`.
pub open spec fn mapping_index(fmaps: Seq<FileMapping>, addr: u64) -> Option<int> {
    if exists|i: int| 0 <= i < fmaps.len() && #[trigger] in_map(fmaps[i], addr) {
        Some(choose|i: int| 0 <= i < fmaps.len() && #[trigger] in_map(fmaps[i], addr)
            && forall|j: int| 0 <= j < i ==> !#[trigger] in_map(fmaps[j], addr))
    } else {
        None
    }
}

/// The index of the first file mapping whose range of addresses holds
/// `causal_addr`.
pub fn find_file_mapping(fmaps: &Vec<FileMapping>, causal_addr: u64) -> (r: Option<usize>)
    ensures
        match r {
            Some(i) => i < fmaps@.len() && in_map(fmaps@[i as int], causal_addr)
                && forall|j: int| 0 <= j < i ==> !#[trigger] in_map(fmaps@[j], causal_addr),
            None => forall|j: int| 0 <= j < fmaps@.len() ==> !#[trigger] in_map(fmaps@[j], causal_addr),
        },
{
    let mut i: usize = 0;
    while i < fmaps.len()
        invariant
            i <= fmaps@.len(),
            forall|j: int| 0 <= j < i ==> !#[trigger] in_map(fmaps@[j], causal_addr),
        decreases fmaps@.len() - i,
    {
        if fmaps[i].vaddr_begin <= causal_addr && causal_addr < fmaps[i].vaddr_end {
            return Some(i);
        }
        i = i + 1;
    }
    None
}

/// What a page fault asks for.
#[derive(Clone, Copy, Debug, PartialEq, Eq, Structural)]
pub enum PageFaultAction {
    /// Map a fresh page at this address.
    MapPage(u64),
    /// Map the page that starts at `page` and fill it with the bytes of the
    /// file `fd` from `file_offset` on.
    CachePage { fd: i32, page: u64, file_offset: u64 },
}

/// What a page fault with `error_code` at `causal_addr` in a task asks for:
/// a fault on a present page is `AlreadyAllocated`; one in the task's
/// demand-paging range or its application stack maps a page; one in a
/// mapped file caches the page of the file (the first such mapping); any
/// other is `IndexOutOfRange`.
pub open spec fn page_fault_spec(error_code: u64, causal_addr: u64, dp_begin: u64, dp_end: u64, stack_size: u64, fmaps: Seq<FileMapping>) -> Result<PageFaultAction, Code> {
    if error_code % 2 == 1 {
        Err(Code::AlreadyAllocated)
    } else if (dp_begin <= causal_addr < dp_end) || (APP_STACK_ADDR - stack_size <= causal_addr < APP_STACK_ADDR) {
        Ok(PageFaultAction::MapPage(causal_addr))
    } else {
        match mapping_index(fmaps, causal_addr) {
            Some(i) => {
                let page = (causal_addr - causal_addr % 4096) as u64;
                Ok(PageFaultAction::CachePage { fd: fmaps[i].fd, page, file_offset: (page - fmaps[i].vaddr_begin) as u64 })
            },
            None => Err(Code::IndexOutOfRange),
        }
    }
}

/// What a page fault with `error_code` at `causal_addr` in `task` asks for
/// (see `page_fault_spec`). The file mappings start on page boundaries.
pub fn page_fault_action(error_code: u64, causal_addr: u64, task: &Task) -> (r: Result<PageFaultAction, Code>)
    requires
        task.app_stack_size_spec() <= APP_STACK_ADDR,
        forall|i: int| 0 <= i < task.file_maps_spec().len() ==> #[trigger] task.file_maps_spec()[i].vaddr_begin % 4096 == 0,
    ensures
        r == page_fault_spec(error_code, causal_addr, task.dpaging_begin_spec(), task.dpaging_end_spec(),
            task.app_stack_size_spec(), task.file_maps_spec()),
{
    proof {
        assert(((1u64 << 1u64) - 1) as u64 == 1u64) by (bit_vector);
        assert(((error_code >> 0u64) & 1u64 == 1u64) == (error_code % 2 == 1)) by (bit_vector);
        assert(bit_of(error_code, 0) == (error_code % 2 == 1));
    }
    if get_bit(error_code, 0) {
        return Err(Code::AlreadyAllocated);
    }
    let stack_low = APP_STACK_ADDR - task.app_stack_size();
    if (task.dpaging_begin() <= causal_addr && causal_addr < task.dpaging_end())
        || (stack_low <= causal_addr && causal_addr < APP_STACK_ADDR) {
        return Ok(PageFaultAction::MapPage(causal_addr));
    }
    let fmaps = task.file_maps();
    match find_file_mapping(fmaps, causal_addr) {
        Some(i) => {
            let m = fmaps[i];
            let page = causal_addr - causal_addr % 4096;
            proof {
                assert(mapping_index(fmaps@, causal_addr) == Some(i as int)) by {
                    assert(in_map(fmaps@[i as int], causal_addr));
                    let k = choose|k: int| 0 <= k < fmaps@.len() && #[trigger] in_map(fmaps@[k], causal_addr)
                        && forall|j: int| 0 <= j < k ==> !#[trigger] in_map(fmaps@[j], causal_addr);
                    if k < i {
                        assert(!in_map(fmaps@[k], causal_addr));
                    } else if k > i {
                        assert(!in_map(fmaps@[i as int], causal_addr));
                    }
                }
                assert(m.vaddr_begin % 4096 == 0);
            }
            Ok(PageFaultAction::CachePage { fd: m.fd, page, file_offset: page - m.vaddr_begin })
        },
        None => Err(Code::IndexOutOfRange),
    }
}

/// Page directories of the kernel's identity map: each maps 1 GiB with
/// 2 MiB pages.
pub const PAGE_DIRECTORY_COUNT: usize = 64;

/// The tables of the kernel's identity map: the top-level table, the
/// page-directory-pointer table and the page directories one after the
/// other, 512 entries each.
pub struct IdentityTables {
    pub pml4: Vec<u64>,
    pub pdp: Vec<u64>,
    pub directories: Vec<u64>,
}

/// Entry `j` of page directory `i` of the identity map: the 2 MiB page at
/// `i` GiB plus `j` times 2 MiB, present, writable and a large page.
pub open spec fn identity_entry(i: int, j: int) -> u64 {
    ((i * 0x4000_0000 + j * 0x20_0000) as u64) | 0x83
}

/// Fills the identity map of the first 64 GiB: entry 0 of the top-level
/// table points at the page-directory-pointer table at `pdp_addr`, whose
/// first 64 entries point at the page directories, 4 KiB apart from
/// `directory_addr`, which map every 2 MiB page to itself. Every other
/// entry is empty. (Loading the table into CR3 is the caller's part.)
pub fn setup_indentity_page_table(pdp_addr: u64, directory_addr: u64) -> (r: IdentityTables)
    requires
        directory_addr + 4096 * PAGE_DIRECTORY_COUNT <= u64::MAX,
    ensures
        r.pml4@.len() == 512,
        r.pml4@[0] == pdp_addr | 3,
        forall|i: int| 1 <= i < 512 ==> r.pml4@[i] == 0,
        r.pdp@.len() == 512,
        forall|i: int| 0 <= i < PAGE_DIRECTORY_COUNT ==> r.pdp@[i] == ((directory_addr + 4096 * i) as u64) | 3,
        forall|i: int| PAGE_DIRECTORY_COUNT <= i < 512 ==> r.pdp@[i] == 0,
        r.directories@.len() == 512 * PAGE_DIRECTORY_COUNT,
        forall|i: int, j: int| 0 <= i < PAGE_DIRECTORY_COUNT && 0 <= j < 512
            ==> #[trigger] r.directories@[512 * i + j] == identity_entry(i, j),
{
    let mut pml4: Vec<u64> = Vec::new();
    pml4.push(pdp_addr | 3);
    while pml4.len() < 512
        invariant
            1 <= pml4@.len() <= 512,
            pml4@[0] == pdp_addr | 3,
            forall|i: int| 1 <= i < pml4@.len() ==> pml4@[i] == 0,
        decreases 512 - pml4@.len(),
    {
        pml4.push(0);
    }
    let mut pdp: Vec<u64> = Vec::new();
    let mut directories: Vec<u64> = Vec::new();
    let mut i: usize = 0;
    while i < PAGE_DIRECTORY_COUNT
        invariant
            i <= PAGE_DIRECTORY_COUNT,
            directory_addr + 4096 * PAGE_DIRECTORY_COUNT <= u64::MAX,
            pdp@.len() == i,
            forall|k: int| 0 <= k < i ==> pdp@[k] == ((directory_addr + 4096 * k) as u64) | 3,
            directories@.len() == 512 * i,
            forall|k: int, j: int| 0 <= k < i && 0 <= j < 512 ==> #[trigger] directories@[512 * k + j] == identity_entry(k, j),
        decreases PAGE_DIRECTORY_COUNT - i,
    {
        pdp.push((directory_addr + 4096 * i as u64) | 3);
        let mut j: usize = 0;
        while j < 512
            invariant
                i < PAGE_DIRECTORY_COUNT,
                j <= 512,
                directories@.len() == 512 * i + j,
                forall|k: int, l: int| 0 <= k < i && 0 <= l < 512 ==> #[trigger] directories@[512 * k + l] == identity_entry(k, l),
                forall|l: int| 0 <= l < j ==> #[trigger] directories@[512 * i + l] == identity_entry(i as int, l),
            decreases 512 - j,
        {
            let ghost before = directories@;
            directories.push((i as u64 * 0x4000_0000 + j as u64 * 0x20_0000) | 0x83);
            proof {
                assert forall|k: int, l: int| 0 <= k < i && 0 <= l < 512 implies #[trigger] directories@[512 * k + l] == identity_entry(k, l) by {
                    assert(512 * k + l < 512 * i) by (nonlinear_arith) requires 0 <= k < i, 0 <= l < 512;
                    assert(directories@[512 * k + l] == before[512 * k + l]);
                }
            }
            j = j + 1;
        }
        proof {
            assert forall|k: int, l: int| 0 <= k < i + 1 && 0 <= l < 512 implies #[trigger] directories@[512 * k + l] == identity_entry(k, l) by {
                if k == i {
                    assert(directories@[512 * i + l] == identity_entry(i as int, l));
                }
            }
        }
        i = i + 1;
    }
    while pdp.len() < 512
        invariant
            PAGE_DIRECTORY_COUNT <= pdp@.len() <= 512,
            forall|k: int| 0 <= k < PAGE_DIRECTORY_COUNT ==> pdp@[k] == ((directory_addr + 4096 * k) as u64) | 3,
            forall|k: int| PAGE_DIRECTORY_COUNT <= k < pdp@.len() ==> pdp@[k] == 0,
        decreases 512 - pdp@.len(),
    {
        pdp.push(0);
    }
    IdentityTables { pml4, pdp, directories }
}

} // verus!
