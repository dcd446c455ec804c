//! ACPI tables: the root pointer, table headers and their checksums, the
//! extended root table's entries, the fixed table's power-management
//! timer, and the deadline arithmetic of waiting on that timer.
use vstd::prelude::*;
use crate::bytes::{le16, le32, le64, read_u32, read_u64};

verus! {

/// Frequency of the power-management timer in Hz.
pub const PM_TIMER_FREQ: u32 = 3579545;

/// Length of a table header.
pub const HEADER_LEN: usize = 36;

/// The sum of the first `n` bytes of `s`, as an integer.
pub open spec fn byte_sum(s: Seq<u8>, n: int) -> int
    decreases n,
{
    if n <= 0 { 0 } else { byte_sum(s, n - 1) + s[n - 1] }
}

/// The sum of the first `bytes` bytes of `data`, modulo 256: 0 for a
/// table with a correct checksum.
pub fn sum_bytes(data: &[u8], bytes: usize) -> (r: u8)
    requires
        bytes <= data@.len(),
    ensures
        r == byte_sum(data@, bytes as int) % 256,
{
    let mut acc: u8 = 0;
    let mut i: usize = 0;
    while i < bytes
        invariant
            i <= bytes <= data@.len(),
            acc == byte_sum(data@, i as int) % 256,
        decreases bytes - i,
    {
        acc = acc.wrapping_add(data[i]);
        i = i + 1;
    }
    acc
}

/// The root system description pointer: 36 bytes.
pub struct RSDP {
    raw: Vec<u8>,
}

impl RSDP {
    pub closed spec fn bytes(&self) -> Seq<u8> {
        self.raw@
    }

    /// The pointer from its 36 bytes; `None` for fewer.
    pub fn from_bytes(b: &[u8]) -> (r: Option<Self>)
        ensures
            r is Some <==> b@.len() >= 36,
            r matches Some(p) ==> p.bytes() == b@.subrange(0, 36),
    {
        if b.len() < 36 {
            return None;
        }
        Some(RSDP { raw: crate::bytes::copy_bytes(b, 0, 36) })
    }

    /// Whether the pointer is valid: its signature is `RSD PTR `, its
    /// revision 2, and both its first 20 and all 36 bytes sum to 0.
    pub fn is_valid(&self) -> (r: bool)
        requires
            self.bytes().len() == 36,
        ensures
            r == (self.bytes().subrange(0, 8) == seq![0x52u8, 0x53, 0x44, 0x20, 0x50, 0x54, 0x52, 0x20]
                && self.bytes()[15] == 2
                && byte_sum(self.bytes(), 20) % 256 == 0
                && byte_sum(self.bytes(), 36) % 256 == 0),
    {
        let sig: [u8; 8] = [0x52, 0x53, 0x44, 0x20, 0x50, 0x54, 0x52, 0x20];
        assert(sig@ =~= seq![0x52u8, 0x53, 0x44, 0x20, 0x50, 0x54, 0x52, 0x20]);
        let mut i: usize = 0;
        while i < 8
            invariant
                self.raw@.len() == 36,
                sig@ == seq![0x52u8, 0x53, 0x44, 0x20, 0x50, 0x54, 0x52, 0x20],
                i <= 8,
                forall|k: int| 0 <= k < i ==> self.raw@[k] == sig@[k],
            decreases 8 - i,
        {
            if self.raw[i] != sig[i] {
                proof {
                    assert(self.raw@.subrange(0, 8)[i as int] != seq![0x52u8, 0x53, 0x44, 0x20, 0x50, 0x54, 0x52, 0x20][i as int]);
                }
                return false;
            }
            i = i + 1;
        }
        assert(self.raw@.subrange(0, 8) =~= seq![0x52u8, 0x53, 0x44, 0x20, 0x50, 0x54, 0x52, 0x20]);
        if self.raw[15] != 2 {
            return false;
        }
        if sum_bytes(self.raw.as_slice(), 20) != 0 {
            return false;
        }
        if sum_bytes(self.raw.as_slice(), 36) != 0 {
            return false;
        }
        true
    }

    /// The checksum of the first 20 bytes.
    pub fn checksum(&self) -> (r: u8)
        requires
            self.bytes().len() == 36,
        ensures
            r == self.bytes()[8],
    {
        self.raw[8]
    }

    /// The address of the root system description table.
    pub fn rsdt_addr(&self) -> (r: u32)
        requires
            self.bytes().len() == 36,
        ensures
            r == le32(self.bytes(), 16),
    {
        read_u32(self.raw.as_slice(), 16)
    }

    /// The length of the whole structure.
    pub fn length(&self) -> (r: u32)
        requires
            self.bytes().len() == 36,
        ensures
            r == le32(self.bytes(), 20),
    {
        read_u32(self.raw.as_slice(), 20)
    }

    /// The address of the extended system description table.
    pub fn xsdt_addr(&self) -> (r: u64)
        requires
            self.bytes().len() == 36,
        ensures
            r == le64(self.bytes(), 24),
    {
        read_u64(self.raw.as_slice(), 24)
    }

    /// The checksum of all 36 bytes.
    pub fn extended_checksum(&self) -> (r: u8)
        requires
            self.bytes().len() == 36,
        ensures
            r == self.bytes()[32],
    {
        self.raw[32]
    }
}

/// A system description table: its 36-byte header and the rest, as many
/// bytes in all as the header's length says.
pub struct DescriptionHeader {
    table: Vec<u8>,
}

impl DescriptionHeader {
    pub closed spec fn bytes(&self) -> Seq<u8> {
        self.table@
    }

    /// The length the header gives.
    pub open spec fn len_spec(&self) -> int {
        le32(self.bytes(), 4)
    }

    /// Whether the bytes hold a header and as many bytes as it says.
    pub open spec fn wf(&self) -> bool {
        self.bytes().len() >= HEADER_LEN && self.bytes().len() >= self.len_spec()
    }

    /// The table whose bytes start `b`; `None` when `b` is shorter than a
    /// header or than the length the header gives.
    pub fn from_bytes(b: &[u8]) -> (r: Option<Self>)
        ensures
            r is Some <==> b@.len() >= HEADER_LEN && b@.len() >= le32(b@, 4),
            r matches Some(h) ==> h.bytes() == b@ && h.wf(),
    {
        if b.len() < HEADER_LEN {
            return None;
        }
        let len = read_u32(b, 4);
        if (b.len() as u64) < len as u64 {
            return None;
        }
        Some(DescriptionHeader { table: crate::bytes::copy_bytes(b, 0, b.len()) })
    }

    /// Whether the table's signature is `expected_sig` and its bytes sum
    /// to 0.
    pub fn is_valid(&self, expected_sig: &[u8; 4]) -> (r: bool)
        requires
            self.wf(),
        ensures
            r == (self.bytes().subrange(0, 4) == expected_sig@ && byte_sum(self.bytes(), self.len_spec()) % 256 == 0),
    {
        let mut i: usize = 0;
        while i < 4
            invariant
                self.table@.len() >= HEADER_LEN,
                i <= 4,
                forall|k: int| 0 <= k < i ==> self.table@[k] == expected_sig@[k],
            decreases 4 - i,
        {
            if self.table[i] != expected_sig[i] {
                proof {
                    assert(self.table@.subrange(0, 4)[i as int] != expected_sig@[i as int]);
                }
                return false;
            }
            i = i + 1;
        }
        assert(self.table@.subrange(0, 4) =~= expected_sig@);
        let len = self.len();
        sum_bytes(self.table.as_slice(), len as usize) == 0
    }

    /// The table's length in bytes.
    pub fn len(&self) -> (r: u32)
        requires
            self.wf(),
        ensures
            r == self.len_spec(),
    {
        read_u32(self.table.as_slice(), 4)
    }
}

/// The extended system description table: a header followed by 8-byte
/// addresses of other tables.
pub struct XSDT {
    pub header: DescriptionHeader,
}

impl XSDT {
    /// How many addresses follow the header.
    pub fn count(&self) -> (r: usize)
        requires
            self.header.wf(),
            self.header.len_spec() >= HEADER_LEN,
        ensures
            r == (self.header.len_spec() - HEADER_LEN) / 8,
    {
        (self.header.len() as usize - HEADER_LEN) / 8
    }

    /// The address of table `index`.
    pub fn entry(&self, index: usize) -> (r: u64)
        requires
            self.header.wf(),
            self.header.len_spec() >= HEADER_LEN,
            index < (self.header.len_spec() - HEADER_LEN) / 8,
        ensures
            r == le64(self.header.bytes(), HEADER_LEN + 8 * index),
    {
        read_u64(self.header.table.as_slice(), HEADER_LEN + 8 * index)
    }
}

/// The fixed ACPI description table (the part of it this kernel reads).
pub struct FADT {
    pub header: DescriptionHeader,
}

impl FADT {
    /// The I/O port of the power-management timer.
    pub fn pm_tmr_blk(&self) -> (r: u32)
        requires
            self.header.bytes().len() >= 116,
        ensures
            r == le32(self.header.bytes(), 76),
    {
        read_u32(self.header.table.as_slice(), 76)
    }

    /// The table's flags.
    pub fn flags(&self) -> (r: u32)
        requires
            self.header.bytes().len() >= 116,
        ensures
            r == le32(self.header.bytes(), 112),
    {
        read_u32(self.header.table.as_slice(), 112)
    }
}

/// The timer value that ends a wait of `msec` milliseconds started at
/// `start`, in 32-bit wrapping arithmetic, cut to 24 bits when the timer
/// has only 24.
pub open spec fn wait_end(start: u32, msec: u64, pm_timer_32: bool) -> u32 {
    let ticks = ((PM_TIMER_FREQ * (msec % 0x1_0000_0000)) % 0x1_0000_0000) / 1000;
    let end = ((start + ticks) % 0x1_0000_0000) as u32;
    if pm_timer_32 { end } else { (end % 0x100_0000) as u32 }
}

/// Where a wait on the power-management timer ends: the end value, and
/// whether it lies below `start` (the timer wraps around first). The timer
/// has 32 bits when bit 8 of the fixed table's `flags` is set.
pub fn wait_milli_seconds(flags: u32, start: u32, msec: u64) -> (r: (u32, bool))
    ensures
        r.0 == wait_end(start, msec, (flags / 0x100) % 2 == 1),
        r.1 == (r.0 < start),
{
    let pm_timer_32 = (flags / 0x100) % 2 == 1;
    let ticks = PM_TIMER_FREQ.wrapping_mul(msec as u32) / 1000;
    proof {
        assert(msec as u32 == msec % 0x1_0000_0000) by (bit_vector);
    }
    let end = start.wrapping_add(ticks);
    let end = if pm_timer_32 { end } else { end % 0x100_0000 };
    (end, end < start)
}

/// Where a wait on the power-management timer stands.
#[derive(Clone, Copy, Debug, PartialEq, Eq, Structural)]
pub enum WaitPhase {
    /// The end lies past the timer's wrap: wait for the timer to wrap
    /// below the start value.
    Wrapping,
    /// Wait for the timer to reach the end value.
    Counting,
    /// The wait is over.
    Done,
}

/// How a wait of `msec` milliseconds from timer value `start` begins: its
/// end value (see `wait_milli_seconds`), and waiting for the timer to wrap
/// first when the end lies below the start.
pub fn wait_begin(flags: u32, start: u32, msec: u64) -> (r: (u32, WaitPhase))
    ensures
        r.0 == wait_end(start, msec, (flags / 0x100) % 2 == 1),
        r.1 == if r.0 < start { WaitPhase::Wrapping } else { WaitPhase::Counting },
{
    let (end, wraps) = wait_milli_seconds(flags, start, msec);
    (end, if wraps { WaitPhase::Wrapping } else { WaitPhase::Counting })
}

/// One reading `now` of the timer during a wait from `start` to `end`:
/// while wrapping, a reading below `start` shows the wrap and counting
/// begins with the next reading; while counting, a reading at or past
/// `end` ends the wait.
pub fn wait_step(phase: WaitPhase, start: u32, end: u32, now: u32) -> (r: WaitPhase)
    ensures
        r == match phase {
            WaitPhase::Wrapping => if now >= start { WaitPhase::Wrapping } else { WaitPhase::Counting },
            WaitPhase::Counting => if now < end { WaitPhase::Counting } else { WaitPhase::Done },
            WaitPhase::Done => WaitPhase::Done,
        },
{
    match phase {
        WaitPhase::Wrapping => if now >= start { WaitPhase::Wrapping } else { WaitPhase::Counting },
        WaitPhase::Counting => if now < end { WaitPhase::Counting } else { WaitPhase::Done },
        WaitPhase::Done => WaitPhase::Done,
    }
}

/// The phase after the readings `rs` of a wait that began in `phase`.
pub open spec fn wait_run(phase: WaitPhase, start: u32, end: u32, rs: Seq<u32>) -> WaitPhase
    decreases rs.len(),
{
    if rs.len() == 0 {
        phase
    } else {
        let p = wait_run(phase, start, end, rs.drop_last());
        let now = rs.last();
        match p {
            WaitPhase::Wrapping => if now >= start { WaitPhase::Wrapping } else { WaitPhase::Counting },
            WaitPhase::Counting => if now < end { WaitPhase::Counting } else { WaitPhase::Done },
            WaitPhase::Done => WaitPhase::Done,
        }
    }
}

/// A wait ends only on a reading at or past its end value, and one that
/// began by waiting for the wrap only after a reading below its start
/// came before.
pub proof fn lemma_wait_done(phase: WaitPhase, start: u32, end: u32, rs: Seq<u32>)
    requires
        phase != WaitPhase::Done,
        wait_run(phase, start, end, rs) == WaitPhase::Done,
    ensures
        exists|k: int| 0 <= k < rs.len() && rs[k] >= end
            && wait_run(phase, start, end, rs.take(k)) == WaitPhase::Counting,
        phase == WaitPhase::Wrapping ==> exists|j: int| 0 <= j < rs.len() && rs[j] < start,
    decreases rs.len(),
{
    let d = rs.drop_last();
    let p = wait_run(phase, start, end, d);
    if p == WaitPhase::Done {
        lemma_wait_done(phase, start, end, d);
        let k = choose|k: int| 0 <= k < d.len() && d[k] >= end && wait_run(phase, start, end, d.take(k)) == WaitPhase::Counting;
        assert(d.take(k) =~= rs.take(k));
        assert(rs[k] == d[k]);
        if phase == WaitPhase::Wrapping {
            let j = choose|j: int| 0 <= j < d.len() && d[j] < start;
            assert(rs[j] == d[j]);
        }
    } else {
        assert(p == WaitPhase::Counting);
        assert(rs.take(rs.len() - 1) =~= d);
        assert(rs[rs.len() - 1] >= end);
        if phase == WaitPhase::Wrapping {
            lemma_wait_counting(start, end, d);
        }
    }
}

/// A wait that began by waiting for the wrap counts only after a reading
/// below its start.
proof fn lemma_wait_counting(start: u32, end: u32, rs: Seq<u32>)
    requires
        wait_run(WaitPhase::Wrapping, start, end, rs) != WaitPhase::Wrapping,
    ensures
        exists|j: int| 0 <= j < rs.len() && rs[j] < start,
    decreases rs.len(),
{
    let d = rs.drop_last();
    if rs.len() > 0 {
        if wait_run(WaitPhase::Wrapping, start, end, d) == WaitPhase::Wrapping {
            assert(rs[rs.len() - 1] < start);
        } else {
            lemma_wait_counting(start, end, d);
            let j = choose|j: int| 0 <= j < d.len() && d[j] < start;
            assert(rs[j] == d[j]);
        }
    }
}

/// The ticks of the power-management timer in `msec` milliseconds, as
/// `wait_milli_seconds` counts them.
pub open spec fn wait_ticks(msec: u64) -> int {
    ((PM_TIMER_FREQ * (msec % 0x1_0000_0000)) % 0x1_0000_0000) / 1000
}

/// The timer time from reading `start` to reading `now` of a counter that
/// wraps at `width`.
pub open spec fn elapsed(start: int, now: int, width: int) -> int {
    if now >= start { now - start } else { now + width - start }
}

/// A wait of `msec` milliseconds ends only once that much timer time has
/// passed: at a reading `now` at or past the end value, taken while the
/// timer has not wrapped when the end lies above the start, or after the
/// wrap (and before the timer is back at the start) when it lies below,
/// at least `msec` milliseconds of ticks lie between the two readings.
pub proof fn lemma_wait_elapsed(start: u32, msec: u64, pm_timer_32: bool, now: u32)
    requires
        PM_TIMER_FREQ * msec < 0x1_0000_0000,
        !pm_timer_32 ==> start < 0x100_0000 && now < 0x100_0000,
        now >= wait_end(start, msec, pm_timer_32),
        wait_end(start, msec, pm_timer_32) >= start ==> now >= start,
        wait_end(start, msec, pm_timer_32) < start ==> now < start,
    ensures
        elapsed(start as int, now as int, if pm_timer_32 { 0x1_0000_0000 } else { 0x100_0000 }) >= wait_ticks(msec),
        wait_ticks(msec) == PM_TIMER_FREQ * msec / 1000,
{
    let t = wait_ticks(msec);
    assert(msec % 0x1_0000_0000 == msec);
    assert((PM_TIMER_FREQ * msec) % 0x1_0000_0000 == PM_TIMER_FREQ * msec);
    assert(0 <= t < 0x80_0000) by (nonlinear_arith)
        requires t == (PM_TIMER_FREQ * msec) / 1000, PM_TIMER_FREQ * msec < 0x1_0000_0000, PM_TIMER_FREQ * msec >= 0;
}

} // verus!
