//! Physical memory: a bitmap with one bit per 4 KiB frame, and the bump
//! allocator the kernel heap draws from.
use vstd::prelude::*;
use crate::bitfield::{bit_of, get_bit, lemma_fill_bits, lemma_get_set_disjoint, lemma_get_set_same, lemma_mask_one, set_bit, set_bits, with_bit, with_bits};
use crate::error::Code;

verus! {

/// Bytes in one frame.
pub const BYTES_PER_FRAME: usize = 4096;

/// Frames (bits) held by one word of the bitmap.
pub const BITS_PER_MAP_LINE: usize = 64;

/// Frames needed to cover the largest physical memory handled, 128 GiB.
pub const FRAME_COUNT: usize = 33_554_432;

/// Words in the bitmap.
pub const MAP_LINES: usize = 524_288;

/// The largest physical memory handled, in bytes.
pub const MAX_PHYSICAL_MEMORY: u64 = 0x20_0000_0000;

/// A physical frame, by number.
#[derive(Clone, Copy, Debug, PartialEq, Eq, Structural)]
pub struct FrameId {
    pub id: usize,
}

impl FrameId {
    pub fn new(id: usize) -> (r: Self)
        ensures
            r.id == id,
    {
        FrameId { id }
    }

    /// The frame that holds address `addr`.
    pub fn from_addr(addr: usize) -> (r: Self)
        ensures
            r.id == addr / BYTES_PER_FRAME,
    {
        FrameId { id: addr / BYTES_PER_FRAME }
    }

    pub fn id(&self) -> (r: usize)
        ensures
            r == self.id,
    {
        self.id
    }

    /// The address of the first byte of the frame.
    pub fn frame(&self) -> (r: usize)
        requires
            self.id * BYTES_PER_FRAME <= usize::MAX,
        ensures
            r == self.id * BYTES_PER_FRAME,
    {
        self.id * BYTES_PER_FRAME
    }
}

/// Whether frame `f` is marked in the bitmap words `map`.
pub open spec fn map_bit(map: Seq<u64>, f: int) -> bool {
    bit_of(map[f / 64], (f % 64) as u64)
}

/// `s` with the `n` entries from `start` set to `v`.
pub open spec fn set_range(s: Seq<bool>, start: int, n: int, v: bool) -> Seq<bool> {
    Seq::new(s.len(), |f: int| if start <= f < start + n { v } else { s[f] })
}

/// Usage statistics of the frame bitmap.
pub struct MemoryStat {
    pub allocated_frames: usize,
    pub total_frames: usize,
}

/// The frame allocator: one bit per frame, set when the frame is in use,
/// and the range of frames it hands out.
pub struct BitmapMemoryManager {
    alloc_map: Vec<u64>,
    range_begin: FrameId,
    range_end: FrameId,
}

impl View for BitmapMemoryManager {
    type V = Seq<bool>;

    /// Whether each frame is in use.
    closed spec fn view(&self) -> Seq<bool> {
        Seq::new(FRAME_COUNT as nat, |f: int| map_bit(self.alloc_map@, f))
    }
}

impl BitmapMemoryManager {
    /// The bitmap has one bit for every frame and the range of frames handed
    /// out lies inside it.
    pub closed spec fn wf(&self) -> bool {
        &&& self.alloc_map@.len() == MAP_LINES
        &&& self.range_begin.id <= FRAME_COUNT
        &&& self.range_end.id <= FRAME_COUNT
    }

    /// First frame handed out.
    pub closed spec fn begin(&self) -> nat {
        self.range_begin.id as nat
    }

    /// One past the last frame handed out.
    pub closed spec fn end(&self) -> nat {
        self.range_end.id as nat
    }

    /// A well-formed manager hands out frames of its bitmap only, and has a
    /// bit for every frame.
    pub proof fn lemma_bounds(&self)
        requires
            self.wf(),
        ensures
            self.begin() <= FRAME_COUNT,
            self.end() <= FRAME_COUNT,
            self@.len() == FRAME_COUNT,
    {
    }

    /// Whether the `n` frames from `s` lie in the range handed out and are
    /// all free (no frames always fit at the start of the range).
    pub open spec fn fits(&self, s: int, n: int) -> bool {
        &&& self.begin() <= s
        &&& (n == 0 || s + n <= self.end())
        &&& forall|j: int| s <= j < s + n ==> !#[trigger] self@[j]
    }

    /// Whether some run of `n` free frames lies in the range handed out.
    pub open spec fn has_fit(&self, n: int) -> bool {
        exists|s: int| self.fits(s, n)
    }

    /// A manager with every frame free and an empty range.
    pub fn new() -> (r: Self)
        ensures
            r.wf(),
            r.begin() == 0,
            r.end() == 0,
            forall|f: int| 0 <= f < FRAME_COUNT ==> !#[trigger] r@[f],
            r@.len() == FRAME_COUNT,
    {
        let mut map: Vec<u64> = Vec::new();
        let mut i: usize = 0;
        while i < MAP_LINES
            invariant
                i <= MAP_LINES,
                map@.len() == i,
                forall|k: int| 0 <= k < i ==> map@[k] == 0,
            decreases MAP_LINES - i,
        {
            map.push(0);
            i = i + 1;
        }
        let r = BitmapMemoryManager { alloc_map: map, range_begin: FrameId::new(0), range_end: FrameId::new(0) };
        assert forall|f: int| 0 <= f < FRAME_COUNT implies !#[trigger] r@[f] by {
            lemma_bit_of_zero((f % 64) as u64);
        }
        r
    }

    /// Whether frame `frame` is in use.
    fn is_allocated(&self, frame: FrameId) -> (r: bool)
        requires
            self.wf(),
            frame.id < FRAME_COUNT,
        ensures
            r == self@[frame.id as int],
    {
        let line_index = frame.id / BITS_PER_MAP_LINE;
        let bit_index = frame.id % BITS_PER_MAP_LINE;
        get_bit(self.alloc_map[line_index], bit_index as u64)
    }

    /// Marks frame `frame` in use (`allocated`) or free.
    fn set_bit(&mut self, frame: FrameId, allocated: bool)
        requires
            old(self).wf(),
            frame.id < FRAME_COUNT,
        ensures
            final(self).wf(),
            final(self).begin() == old(self).begin(),
            final(self).end() == old(self).end(),
            final(self)@ == old(self)@.update(frame.id as int, allocated),
    {
        let line_index = frame.id / BITS_PER_MAP_LINE;
        let bit_index = frame.id % BITS_PER_MAP_LINE;
        let ghost old_view = self@;
        let w = set_bit(self.alloc_map[line_index], bit_index as u64, allocated);
        self.alloc_map.set(line_index, w);
        proof {
            assert forall|f: int| 0 <= f < FRAME_COUNT implies #[trigger] self@[f] == old_view.update(
                frame.id as int,
                allocated,
            )[f] by {
                if f / 64 == line_index && f != frame.id {
                    lemma_bit_roundtrip_other(old(self).alloc_map@[line_index as int], bit_index as u64, allocated, (f % 64) as u64);
                }
            }
            assert(self@ =~= old_view.update(frame.id as int, allocated));
        }
    }

    /// Marks the `num_frames` frames from `frame` in use or free, a word of
    /// the bitmap at a time.
    fn set_bits(&mut self, frame: FrameId, num_frames: usize, allocated: bool)
        requires
            old(self).wf(),
            frame.id + num_frames <= FRAME_COUNT,
        ensures
            final(self).wf(),
            final(self).begin() == old(self).begin(),
            final(self).end() == old(self).end(),
            final(self)@ == set_range(old(self)@, frame.id as int, num_frames as int, allocated),
    {
        let fill: u64 = if allocated { 0xffff_ffff_ffff_ffffu64 } else { 0 };
        let mut line_index = frame.id / BITS_PER_MAP_LINE;
        let mut bit_index = frame.id % BITS_PER_MAP_LINE;
        let mut num = num_frames;
        let ghost old_view = self@;
        while num > 0
            invariant
                self.wf(),
                self.begin() == old(self).begin(),
                self.end() == old(self).end(),
                old_view == old(self)@,
                bit_index < 64,
                frame.id + num_frames <= FRAME_COUNT,
                fill == if allocated { 0xffff_ffff_ffff_ffffu64 } else { 0u64 },
                num > 0 ==> line_index * 64 + bit_index >= frame.id,
                num > 0 ==> line_index * 64 + bit_index + num == frame.id + num_frames,
                num > 0 ==> self@ == set_range(old_view, frame.id as int, line_index * 64 + bit_index - frame.id, allocated),
                num == 0 ==> self@ == set_range(old_view, frame.id as int, num_frames as int, allocated),
            decreases num,
        {
            let ghost before = self@;
            let ghost old_map = self.alloc_map@;
            let ghost lo = bit_index;
            let hi: usize = if bit_index + num > BITS_PER_MAP_LINE { BITS_PER_MAP_LINE } else { bit_index + num };
            let w = set_bits(self.alloc_map[line_index], bit_index as u64, hi as u64, fill);
            let ghost old_word = self.alloc_map@[line_index as int];
            self.alloc_map.set(line_index, w);
            proof {
                let start = frame.id as int;
                let cur = line_index * 64 + lo;
                let next = line_index * 64 + hi;
                assert forall|f: int| 0 <= f < FRAME_COUNT implies #[trigger] self@[f] == set_range(
                    old_view,
                    start,
                    next - start,
                    allocated,
                )[f] by {
                    let j = f % 64;
                    assert(self@[f] == map_bit(self.alloc_map@, f));
                    assert(before[f] == map_bit(old_map, f));
                    if f / 64 == line_index {
                        lemma_fill_bits(old_word, lo as u64, hi as u64, allocated, j as u64);
                        assert(f == line_index * 64 + j);
                    } else {
                        assert(self.alloc_map@[f / 64] == old_map[f / 64]);
                        assert(!(cur <= f < next));
                    }
                }
                assert(self@ =~= set_range(old_view, start, next - start, allocated));
            }
            if bit_index + num > BITS_PER_MAP_LINE {
                num = num - (BITS_PER_MAP_LINE - bit_index);
            } else {
                num = 0;
            }
            line_index = line_index + 1;
            bit_index = 0;
        }
    }

    /// Marks the `num_frames` frames from `start_frame` in use.
    fn mark_allocated(&mut self, start_frame: FrameId, num_frames: usize)
        requires
            old(self).wf(),
            start_frame.id + num_frames <= FRAME_COUNT,
        ensures
            final(self).wf(),
            final(self).begin() == old(self).begin(),
            final(self).end() == old(self).end(),
            final(self)@ == set_range(old(self)@, start_frame.id as int, num_frames as int, true),
    {
        self.set_bits(start_frame, num_frames, true)
    }

    /// Finds the first run of `num_frames` free frames in the range handed
    /// out, marks it in use and returns its first frame; fails with
    /// `NoEnoughMemory` when there is no such run.
    pub fn allocate(&mut self, num_frames: usize) -> (r: Result<FrameId, Code>)
        requires
            old(self).wf(),
        ensures
            final(self).wf(),
            final(self).begin() == old(self).begin(),
            final(self).end() == old(self).end(),
            match r {
                Ok(f) => {
                    &&& old(self).fits(f.id as int, num_frames as int)
                    &&& forall|s: int| old(self).begin() <= s < f.id ==> !old(self).fits(s, num_frames as int)
                    &&& final(self)@ == set_range(old(self)@, f.id as int, num_frames as int, true)
                },
                Err(c) => {
                    &&& c == Code::NoEnoughMemory
                    &&& !old(self).has_fit(num_frames as int)
                    &&& final(self)@ == old(self)@
                },
            },
    {
        let mut start_frame_id = self.range_begin.id;
        let end = self.range_end.id;
        if num_frames == 0 {
            let ghost before = *self;
            self.mark_allocated(FrameId::new(start_frame_id), 0);
            proof {
                assert(before.fits(start_frame_id as int, 0));
                assert(self@ =~= set_range(before@, start_frame_id as int, 0, true));
            }
            return Ok(FrameId::new(start_frame_id));
        }
        if start_frame_id >= end {
            proof {
                assert forall|s: int| !self.fits(s, num_frames as int) by {
                    if self.begin() <= s {
                        assert(s + num_frames > end);
                    }
                }
            }
            return Err(Code::NoEnoughMemory);
        }
        loop
            invariant
                self.wf(),
                *self == *old(self),
                end == self.end(),
                self.begin() <= start_frame_id <= end,
                forall|s: int| self.begin() <= s < start_frame_id ==> !self.fits(s, num_frames as int),
            decreases end - start_frame_id,
        {
            let mut i: usize = 0;
            let mut blocked = false;
            while i < num_frames && !blocked
                invariant
                    self.wf(),
                    *self == *old(self),
                    end == self.end(),
                    self.begin() <= start_frame_id <= end,
                    forall|s: int| self.begin() <= s < start_frame_id ==> !self.fits(s, num_frames as int),
                    i <= num_frames,
                    start_frame_id + i <= end,
                    blocked ==> i < num_frames && start_frame_id + i < end && self@[start_frame_id + i],
                    forall|j: int| start_frame_id <= j < start_frame_id + i ==> !#[trigger] self@[j],
                decreases num_frames - i + if blocked { 0int } else { 1int },
            {
                if start_frame_id + i >= end {
                    proof {
                        assert forall|s: int| !self.fits(s, num_frames as int) by {
                            if self.begin() <= s && s < start_frame_id {
                            } else if s >= start_frame_id {
                                assert(s + num_frames > end);
                            }
                        }
                    }
                    return Err(Code::NoEnoughMemory);
                }
                if self.is_allocated(FrameId::new(start_frame_id + i)) {
                    blocked = true;
                } else {
                    i = i + 1;
                }
            }
            if !blocked {
                let ghost before = *self;
                self.mark_allocated(FrameId::new(start_frame_id), num_frames);
                proof {
                    assert(before.fits(start_frame_id as int, num_frames as int));
                }
                return Ok(FrameId::new(start_frame_id));
            }
            proof {
                assert forall|s: int| self.begin() <= s < start_frame_id + i + 1 implies !self.fits(s, num_frames as int) by {
                    if s >= start_frame_id {
                        assert(self@[start_frame_id + i]);
                    }
                }
            }
            start_frame_id = start_frame_id + i + 1;
        }
    }

    /// Marks the `num_frames` frames from `start_frame` free.
    pub fn free(&mut self, start_frame: FrameId, num_frames: usize)
        requires
            old(self).wf(),
            start_frame.id + num_frames <= FRAME_COUNT,
        ensures
            final(self).wf(),
            final(self).begin() == old(self).begin(),
            final(self).end() == old(self).end(),
            final(self)@ == set_range(old(self)@, start_frame.id as int, num_frames as int, false),
    {
        let mut i: usize = 0;
        let ghost old_view = self@;
        while i < num_frames
            invariant
                self.wf(),
                self.begin() == old(self).begin(),
                self.end() == old(self).end(),
                old_view == old(self)@,
                i <= num_frames,
                start_frame.id + num_frames <= FRAME_COUNT,
                self@ == set_range(old_view, start_frame.id as int, i as int, false),
            decreases num_frames - i,
        {
            self.set_bit(FrameId::new(start_frame.id + i), false);
            i = i + 1;
            proof {
                assert(self@ =~= set_range(old_view, start_frame.id as int, i as int, false));
            }
        }
    }

    /// How many frames of the range handed out are in use, counted over
    /// whole bitmap words (from the word holding the first frame of the range
    /// up to, not including, the word holding its end), and how many frames
    /// the range has.
    pub fn stat(&self) -> (r: MemoryStat)
        requires
            self.wf(),
            self.begin() <= self.end(),
        ensures
            r.allocated_frames == count_set(self@, 64 * (self.begin() / 64) as int, 64 * (self.end() / 64) as int),
            r.total_frames == self.end() - self.begin(),
    {
        let mut sum: usize = 0;
        let lb = self.range_begin.id / BITS_PER_MAP_LINE;
        let le = self.range_end.id / BITS_PER_MAP_LINE;
        let mut i = lb;
        while i < le
            invariant
                self.wf(),
                lb <= i <= le,
                le == self.end() / 64,
                lb == self.begin() / 64,
                sum == count_set(self@, 64 * lb, 64 * i),
                sum <= 64 * (i - lb),
            decreases le - i,
        {
            let word = self.alloc_map[i];
            let mut k: u64 = 0;
            while k < 64
                invariant
                    self.wf(),
                    lb <= i < le,
                    le == self.end() / 64,
                    word == self.alloc_map@[i as int],
                    k <= 64,
                    sum == count_set(self@, 64 * lb, 64 * i + k),
                    sum <= 64 * (i - lb) + k,
                decreases 64 - k,
            {
                let ghost f = 64 * i + k;
                assert(f / 64 == i && f % 64 == k);
                if get_bit(word, k) {
                    sum = sum + 1;
                }
                k = k + 1;
            }
            i = i + 1;
        }
        MemoryStat { allocated_frames: sum, total_frames: self.range_end.id - self.range_begin.id }
    }

    /// Sets the manager up from the firmware's memory map: every gap between
    /// the end of the last usable region and the start of the next
    /// descriptor, and the frames of the kernel image, are marked in use, and
    /// the range handed out becomes frame 1 up to the end of the last usable
    /// region. A manager whose range already starts above frame 0 is left as
    /// it is.
    pub fn init(&mut self, memory_map: &[MemoryDescriptor], kernel_base: usize, kernel_size: usize)
        requires
            old(self).wf(),
            map_in_range(memory_map@),
            kernel_base as int + kernel_size as int + 4095 <= MAX_PHYSICAL_MEMORY,
            kernel_size as int + 4095 <= usize::MAX,
        ensures
            final(self).wf(),
            old(self).begin() != 0 ==> *final(self) == *old(self),
            old(self).begin() == 0 ==> {
                &&& final(self).begin() == 1
                &&& final(self).end() == avail_end_after(memory_map@, memory_map@.len() as int) / 4096
                &&& final(self)@ == set_range(
                    gaps_marked(old(self)@, memory_map@, memory_map@.len() as int),
                    (kernel_base / 4096) as int,
                    num_frames_for(kernel_size as int),
                    true,
                )
            },
    {
        if self.range_begin.id != 0 {
            return;
        }
        let mut available_end: u64 = 0;
        let mut k: usize = 0;
        let ghost v0 = self@;
        while k < memory_map.len()
            invariant
                self.wf(),
                self.begin() == 0,
                self.end() == old(self).end(),
                v0 == old(self)@,
                k <= memory_map@.len(),
                map_in_range(memory_map@),
                available_end == avail_end_after(memory_map@, k as int),
                available_end <= MAX_PHYSICAL_MEMORY,
                self@ == gaps_marked(v0, memory_map@, k as int),
            decreases memory_map@.len() - k,
        {
            let desc = memory_map[k];
            proof {
                lemma_avail_end_bound(memory_map@, k as int);
                assert(desc_end(memory_map@[k as int]) <= MAX_PHYSICAL_MEMORY);
            }
            let phys_start = desc.phys_start;
            if available_end < phys_start {
                proof { lemma_gap_frames_fit(available_end as int, phys_start as int); }
                let first = (available_end / 4096) as usize;
                let count = ((phys_start - available_end + 4095) / 4096) as usize;
                self.mark_allocated(FrameId::new(first), count);
            }
            let phys_end = phys_start + desc.page_count * 4096;
            if is_available(desc.ty) {
                available_end = phys_end;
            }
            k = k + 1;
            proof {
                assert(memory_map@[k - 1] == desc);
            }
        }
        proof { lemma_gap_frames_fit(kernel_base as int, kernel_base as int + kernel_size as int); }
        self.mark_allocated(FrameId::from_addr(kernel_base), get_num_frames(kernel_size));
        self.range_begin = FrameId::new(1);
        self.range_end = FrameId::new((available_end / 4096) as usize);
    }
}

/// Bytes in a UEFI page.
pub const UEFI_PAGE_SIZE: usize = 4096;

/// One region of the firmware's memory map: its UEFI memory type, first
/// physical address and length in 4 KiB pages.
#[derive(Clone, Copy, Debug, PartialEq, Eq, Structural)]
pub struct MemoryDescriptor {
    pub ty: u32,
    pub phys_start: u64,
    pub page_count: u64,
}

/// UEFI memory type of boot-service code.
pub const BOOT_SERVICES_CODE: u32 = 3;
/// UEFI memory type of boot-service data.
pub const BOOT_SERVICES_DATA: u32 = 4;
/// UEFI memory type of free memory.
pub const CONVENTIONAL: u32 = 7;

/// Whether the kernel may use memory of UEFI type `ty`: boot-service code
/// and data, and conventional memory.
pub open spec fn is_available_type(ty: u32) -> bool {
    ty == BOOT_SERVICES_CODE || ty == BOOT_SERVICES_DATA || ty == CONVENTIONAL
}

/// Whether memory of the UEFI type `memory_type` is usable by the kernel.
pub fn is_available(memory_type: u32) -> (r: bool)
    ensures
        r == is_available_type(memory_type),
{
    memory_type == BOOT_SERVICES_CODE || memory_type == BOOT_SERVICES_DATA || memory_type == CONVENTIONAL
}

/// Frames needed to hold `size` bytes.
pub open spec fn num_frames_for(size: int) -> int {
    (size + 4095) / 4096
}

/// Frames needed to hold `size` bytes (rounded up).
pub fn get_num_frames(size: usize) -> (r: usize)
    requires
        size + 4095 <= usize::MAX,
    ensures
        r == num_frames_for(size as int),
{
    (size + (BYTES_PER_FRAME - 1)) / BYTES_PER_FRAME
}

/// Where the descriptor `d` ends.
pub open spec fn desc_end(d: MemoryDescriptor) -> int {
    d.phys_start + d.page_count * 4096
}

/// Every region of the memory map ends inside the memory the bitmap covers.
pub open spec fn map_in_range(m: Seq<MemoryDescriptor>) -> bool {
    forall|k: int| 0 <= k < m.len() ==> desc_end(#[trigger] m[k]) <= MAX_PHYSICAL_MEMORY
}

/// The end of the last usable region among the first `k` descriptors
/// (0 when there is none).
pub open spec fn avail_end_after(m: Seq<MemoryDescriptor>, k: int) -> int
    decreases k,
{
    if k <= 0 {
        0
    } else if is_available_type(m[k - 1].ty) {
        desc_end(m[k - 1])
    } else {
        avail_end_after(m, k - 1)
    }
}

/// `v` with the frames of every gap among the first `k` descriptors marked
/// in use: the frames from the end of the last usable region before
/// descriptor `i` up to the start of descriptor `i`, when that start lies
/// further on.
pub open spec fn gaps_marked(v: Seq<bool>, m: Seq<MemoryDescriptor>, k: int) -> Seq<bool>
    decreases k,
{
    if k <= 0 {
        v
    } else {
        let prev = gaps_marked(v, m, k - 1);
        let a = avail_end_after(m, k - 1);
        let s = m[k - 1].phys_start as int;
        if a < s {
            set_range(prev, a / 4096, num_frames_for(s - a), true)
        } else {
            prev
        }
    }
}

proof fn lemma_avail_end_bound(m: Seq<MemoryDescriptor>, k: int)
    requires
        map_in_range(m),
        0 <= k <= m.len(),
    ensures
        0 <= avail_end_after(m, k) <= MAX_PHYSICAL_MEMORY,
    decreases k,
{
    if k > 0 {
        lemma_avail_end_bound(m, k - 1);
        assert(desc_end(m[k - 1]) <= MAX_PHYSICAL_MEMORY);
    }
}

/// The frames of a region that ends below the top of covered memory are
/// inside the bitmap.
proof fn lemma_gap_frames_fit(a: int, s: int)
    requires
        0 <= a <= s,
        s + 4095 <= MAX_PHYSICAL_MEMORY + 4095,
    ensures
        a / 4096 + num_frames_for(s - a) <= FRAME_COUNT,
{
    assert(a / 4096 + (s - a + 4095) / 4096 <= (s + 4095) / 4096) by (nonlinear_arith)
        requires
            0 <= a <= s,
    {
        vstd::arithmetic::div_mod::lemma_fundamental_div_mod(a, 4096);
        vstd::arithmetic::div_mod::lemma_fundamental_div_mod(s - a + 4095, 4096);
        vstd::arithmetic::div_mod::lemma_fundamental_div_mod(s + 4095, 4096);
    }
    assert((s + 4095) / 4096 <= FRAME_COUNT) by (nonlinear_arith)
        requires
            s <= 0x20_0000_0000,
    ;
}

/// Counts the frames marked in use in `v` from `lo` up to `hi`.
pub open spec fn count_set(v: Seq<bool>, lo: int, hi: int) -> nat
    decreases hi - lo,
{
    if hi <= lo {
        0
    } else {
        count_set(v, lo, hi - 1) + if v[hi - 1] { 1nat } else { 0nat }
    }
}

/// Counts the free frames in `v` from `lo` up to `hi`.
pub open spec fn count_free(v: Seq<bool>, lo: int, hi: int) -> nat
    decreases hi - lo,
{
    if hi <= lo {
        0
    } else {
        count_free(v, lo, hi - 1) + if v[hi - 1] { 0nat } else { 1nat }
    }
}

impl BitmapMemoryManager {
    /// How many frames of the range handed out are free.
    pub open spec fn free_frames(&self) -> nat {
        count_free(self@, self.begin() as int, self.end() as int)
    }

    /// A manager with no free frame left has no free frames to count; one
    /// with a free frame has a run of one.
    pub proof fn lemma_free_frames_fit(&self)
        ensures
            self.has_fit(1) <==> self.free_frames() > 0,
    {
        lemma_count_free_pos(self@, self.begin() as int, self.end() as int);
        if self.has_fit(1) {
            let s = choose|s: int| self.fits(s, 1);
            assert(!self@[s]);
            lemma_count_free_has(self@, self.begin() as int, self.end() as int, s);
        }
        if self.free_frames() > 0 {
            let s = choose|s: int| self.begin() <= s < self.end() && !#[trigger] self@[s];
            assert(self.fits(s, 1));
        }
    }
}

/// Some frame is free where the count is positive.
proof fn lemma_count_free_pos(v: Seq<bool>, lo: int, hi: int)
    ensures
        count_free(v, lo, hi) > 0 ==> exists|s: int| lo <= s < hi && !#[trigger] v[s],
    decreases hi - lo,
{
    if hi > lo {
        lemma_count_free_pos(v, lo, hi - 1);
        if !v[hi - 1] {
            assert(lo <= hi - 1 < hi && !v[hi - 1]);
        }
    }
}

/// A free frame in the range is counted.
proof fn lemma_count_free_has(v: Seq<bool>, lo: int, hi: int, s: int)
    requires
        lo <= s < hi,
        !v[s],
    ensures
        count_free(v, lo, hi) > 0,
    decreases hi - lo,
{
    if s < hi - 1 {
        lemma_count_free_has(v, lo, hi - 1, s);
    }
}

/// Marking one free frame of the range in use takes one from the count.
pub proof fn lemma_count_free_take(v: Seq<bool>, lo: int, hi: int, s: int)
    requires
        lo <= s < hi,
        0 <= lo,
        hi <= v.len(),
        !v[s],
    ensures
        count_free(set_range(v, s, 1, true), lo, hi) + 1 == count_free(v, lo, hi),
    decreases hi - lo,
{
    if s < hi - 1 {
        lemma_count_free_take(v, lo, hi - 1, s);
    } else {
        lemma_count_free_same(v, set_range(v, s, 1, true), lo, hi - 1);
    }
}

/// Counts agree where the bitmaps agree.
proof fn lemma_count_free_same(v: Seq<bool>, w: Seq<bool>, lo: int, hi: int)
    requires
        forall|j: int| lo <= j < hi ==> v[j] == w[j],
    ensures
        count_free(v, lo, hi) == count_free(w, lo, hi),
    decreases hi - lo,
{
    if hi > lo {
        lemma_count_free_same(v, w, lo, hi - 1);
    }
}

/// Allocating a run of free frames and then freeing it gives back the
/// bitmap from before the allocation.
pub proof fn lemma_allocate_then_free(v: Seq<bool>, s: int, n: int)
    requires
        0 <= s,
        s + n <= v.len(),
        forall|j: int| s <= j < s + n ==> !#[trigger] v[j],
    ensures
        set_range(set_range(v, s, n, true), s, n, false) == v,
{
    assert(set_range(set_range(v, s, n, true), s, n, false) =~= v);
}

/// Bit `i` of zero is clear.
proof fn lemma_bit_of_zero(i: u64)
    requires
        i < 64,
    ensures
        !bit_of(0, i),
{
    lemma_fill_bits(0, 0, 64, false, i);
    lemma_get_set_same(0, 0, 64, 0);
    assert(with_bits(0, 0, 64, 0) == 0u64) by (bit_vector);
}

/// Setting one bit of a word leaves the other bits unchanged.
proof fn lemma_bit_roundtrip_other(x: u64, i: u64, b: bool, j: u64)
    requires
        i < 64,
        j < 64,
        i != j,
    ensures
        bit_of(with_bit(x, i, b), j) == bit_of(x, j),
{
    lemma_get_set_disjoint(x, i, (i + 1) as u64, if b { 1 } else { 0 }, j, (j + 1) as u64);
}

} // verus!

verus! {

/// The kernel heap: hands out memory from the front of a fixed region and
/// never takes any back.
pub struct Global {
    cur: usize,
    end: usize,
}

/// The address `start` rounded up to a multiple of `align`.
pub open spec fn align_up(start: int, align: int) -> int {
    if start % align == 0 {
        start
    } else {
        start + align - start % align
    }
}

proof fn lemma_align_up(cur: int, align: int)
    requires
        cur >= 0,
        align > 0,
    ensures
        align_up(cur, align) % align == 0,
        cur <= align_up(cur, align) < cur + align,
{
    vstd::arithmetic::div_mod::lemma_fundamental_div_mod(cur, align);
    let q = cur / align;
    let r = cur % align;
    if r != 0 {
        assert(cur + align - r == (q + 1) * align) by (nonlinear_arith)
            requires
                cur == align * q + r,
        ;
        vstd::arithmetic::div_mod::lemma_mod_multiples_basic(q + 1, align);
    }
}

impl Global {
    /// Next free address.
    pub closed spec fn cur_spec(&self) -> nat {
        self.cur as nat
    }

    /// One past the last address of the region.
    pub closed spec fn end_spec(&self) -> nat {
        self.end as nat
    }

    /// A heap with no region yet.
    pub fn new() -> (r: Self)
        ensures
            r.cur_spec() == 0,
            r.end_spec() == 0,
    {
        Global { cur: 0, end: 0 }
    }

    /// Whether the heap has a region.
    pub fn is_initialized(&self) -> (r: bool)
        ensures
            r == (self.cur_spec() != 0),
    {
        self.cur != 0
    }

    /// Takes the first run of `num_frames` free frames from `manager` as
    /// the heap's region.
    pub fn init(&mut self, manager: &mut BitmapMemoryManager, num_frames: usize)
        requires
            old(self).cur_spec() == 0,
            old(manager).wf(),
            old(manager).has_fit(num_frames as int),
            (FRAME_COUNT + num_frames) * BYTES_PER_FRAME <= usize::MAX,
        ensures
            final(manager).wf(),
            exists|f: int| {
                &&& old(manager).fits(f, num_frames as int)
                &&& forall|s: int| old(manager).begin() <= s < f ==> !old(manager).fits(s, num_frames as int)
                &&& final(manager)@ == set_range(old(manager)@, f, num_frames as int, true)
                &&& final(self).cur_spec() == f * BYTES_PER_FRAME
                &&& final(self).end_spec() == f * BYTES_PER_FRAME + num_frames * BYTES_PER_FRAME
            },
    {
        let start = match manager.allocate(num_frames) {
            Ok(f) => f,
            Err(_) => {
                proof { assert(false); }
                return;
            },
        };
        proof {
            let id = start.id;
            if num_frames > 0 {
                assert(id + num_frames <= old(manager).end());
            } else {
                assert(old(manager).fits(old(manager).begin() as int, 0));
                assert(id == old(manager).begin());
            }
            assert(id <= FRAME_COUNT);
            assert(id * 4096 + num_frames * 4096 <= usize::MAX) by (nonlinear_arith)
                requires
                    id <= FRAME_COUNT,
                    (FRAME_COUNT + num_frames) * 4096 <= usize::MAX,
            ;
        }
        let addr = start.frame();
        self.cur = addr;
        self.end = addr + num_frames * BYTES_PER_FRAME;
    }

    /// Hands out `size` bytes aligned to `align`, or 0 when the region has
    /// no room: the request must end strictly before the region's end.
    pub fn allocate_bytes(&mut self, size: usize, align: usize) -> (r: usize)
        requires
            align > 0,
            old(self).cur_spec() + align + size <= usize::MAX,
        ensures
            ({
                let start = align_up(old(self).cur_spec() as int, align as int);
                if start + size >= old(self).end_spec() {
                    r == 0 && final(self).cur_spec() == old(self).cur_spec()
                } else {
                    &&& r == start
                    &&& r % align == 0
                    &&& r >= old(self).cur_spec()
                    &&& final(self).cur_spec() == start + size
                }
            }),
            final(self).end_spec() == old(self).end_spec(),
    {
        let start = self.cur;
        proof { lemma_align_up(start as int, align as int); }
        let rem = start % align;
        let start = if rem == 0 { start } else { start + align - rem };
        let end = start + size;
        if end >= self.end {
            return 0;
        }
        self.cur = end;
        start
    }
}

/// Freeing the frames that an allocation marked leaves the bitmap as it
/// was before the allocation.
pub proof fn lemma_free_undoes_allocate(m: &BitmapMemoryManager, start: int, n: int)
    requires
        m.fits(start, n),
    ensures
        set_range(set_range(m@, start, n, true), start, n, false) == m@,
{
    assert(set_range(set_range(m@, start, n, true), start, n, false) =~= m@);
}

} // verus!
