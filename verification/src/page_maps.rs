//! The page maps of an address space, held as tables of 512 entries keyed
//! by the physical address of their frame, and the walk that maps a run of
//! 4 KiB pages, taking fresh frames from the frame allocator for the tables
//! and pages it lacks.
use vstd::prelude::*;
use std::collections::HashMap;
use crate::bitfield::{bit_of, bits_of, lemma_bits_bound, lemma_get_set_disjoint, lemma_get_set_same, mask, with_bit, with_bits};
use crate::error::Code;
use crate::task::Task;
use crate::terminal::APP_STACK_ADDR;
use crate::memory_manager::{lemma_count_free_take, set_range, BitmapMemoryManager, FrameId, FRAME_COUNT};
use crate::paging::{page_fault_action, page_fault_spec, PageFaultAction, lemma_entry_addr_roundtrip, lemma_entry_flag_roundtrip, part_of, with_part, LinearAddress4Level, PageMapEntry};

verus! {

/// The lowest address bit of the index at paging level `level` (1 to 4).
pub open spec fn level_lo(level: int) -> u64 {
    (12 + 9 * (level - 1)) as u64
}

/// One past the highest address bit of the index at paging level `level`.
pub open spec fn level_hi(level: int) -> u64 {
    (12 + 9 * level) as u64
}

/// Pages that a table of paging level `level` covers: 512 to the `level`.
pub open spec fn span(level: int) -> int {
    if level <= 0 {
        1
    } else if level == 1 {
        512
    } else if level == 2 {
        262144
    } else if level == 3 {
        134217728
    } else {
        68719476736
    }
}

/// Which of the pages covered by a table of paging level `level` holds
/// address `p`.
pub open spec fn page_in(p: u64, level: int) -> int {
    bits_of(p, 12, level_hi(level)) as int
}

/// Which table of paging level `level` covers address `p`: the address
/// bits above the level's index.
pub open spec fn table_of(p: u64, level: int) -> int {
    bits_of(p, level_hi(level), 64) as int
}

/// How address bits nest: the pages under a level are its index, times the
/// pages under each entry, plus the pages below; and the tables of the level
/// below are the level's tables, times 512, plus the level's index.
proof fn lemma_nesting(p: u64)
    by (bit_vector)
    ensures
        bits_of(p, 12, 30) == bits_of(p, 21, 30) * 512 + bits_of(p, 12, 21),
        bits_of(p, 12, 39) == bits_of(p, 30, 39) * 262144 + bits_of(p, 12, 30),
        bits_of(p, 12, 48) == bits_of(p, 39, 48) * 134217728 + bits_of(p, 12, 39),
        bits_of(p, 12, 64) == bits_of(p, 21, 64) * 512 + bits_of(p, 12, 21),
        bits_of(p, 21, 64) == bits_of(p, 30, 64) * 512 + bits_of(p, 21, 30),
        bits_of(p, 30, 64) == bits_of(p, 39, 64) * 512 + bits_of(p, 30, 39),
        bits_of(p, 39, 64) == bits_of(p, 48, 64) * 512 + bits_of(p, 39, 48),
{
}

/// The nesting of `lemma_nesting` at paging level `level`.
proof fn lemma_level(p: u64, level: int)
    requires
        1 <= level <= 4,
    ensures
        part_of(p, level as i32) < 512,
        level == 1 ==> page_in(p, 1) == part_of(p, 1),
        level >= 2 ==> page_in(p, level) == part_of(p, level as i32) * span(level - 1) + page_in(p, level - 1),
        level >= 2 ==> table_of(p, level - 1) == table_of(p, level) * 512 + part_of(p, level as i32),
        level == 1 ==> bits_of(p, 12, 64) == table_of(p, 1) * 512 + part_of(p, 1),
        0 <= page_in(p, level) < span(level),
{
    lemma_nesting(p);
    let lo = level_lo(level);
    let hi = level_hi(level);
    lemma_bits_bound(p, lo, hi);
    lemma_bits_bound(p, 12, hi);
    assert(1u64 << 9u64 == 512) by (bit_vector);
    assert(1u64 << 18u64 == 262144) by (bit_vector);
    assert(1u64 << 27u64 == 134217728) by (bit_vector);
    assert(1u64 << 36u64 == 68719476736) by (bit_vector);
}

/// Whether `e` is present.
pub open spec fn present(e: PageMapEntry) -> bool {
    bit_of(e.data, 0)
}

/// Whether `e` is present, writable and open to user mode.
pub open spec fn usable(e: PageMapEntry) -> bool {
    bit_of(e.data, 0) && bit_of(e.data, 1) && bit_of(e.data, 2)
}

/// The physical address that `e` points at.
pub open spec fn target(e: PageMapEntry) -> u64 {
    (bits_of(e.data, 12, 52) * 4096) as u64
}

/// An entry of the table at `t` after `set_new_page_map_if_not_present`
/// pointed it at `addr`: the address field set and the entry present.
pub open spec fn pointed(e: PageMapEntry, addr: u64) -> PageMapEntry {
    PageMapEntry { data: with_bit(with_bits(e.data, 12, 52, addr >> 12), 0, true) }
}

/// `e` made writable and open to user mode.
pub open spec fn opened(e: PageMapEntry) -> PageMapEntry {
    PageMapEntry { data: with_bit(with_bit(e.data, 1, true), 2, true) }
}

/// The tables of an address space, by the address of their frame.
pub type TableMap = Map<u64, Seq<PageMapEntry>>;

/// Whether the page that holds `p` is reached from the table `t` of paging
/// level `level`: the entry for `p` at each level down to the page table is
/// present, writable and open to user mode, and each but the last points at
/// a table that is held.
pub open spec fn mapped(m: TableMap, t: u64, level: int, p: u64) -> bool
    decreases level,
{
    if level < 1 || level > 4 {
        false
    } else {
        &&& m.contains_key(t)
        &&& m[t].len() == 512
        &&& usable(m[t][part_of(p, level as i32) as int])
        &&& (level == 1 || mapped(m, target(m[t][part_of(p, level as i32) as int]), level - 1, p))
    }
}

/// `m2` keeps every table of `m`, and every entry that was present (or
/// usable) stays so and keeps its target.
pub open spec fn grows(m: TableMap, m2: TableMap) -> bool {
    forall|t: u64| #[trigger] m.contains_key(t) ==> {
        &&& m2.contains_key(t)
        &&& m2[t].len() == m[t].len()
        &&& forall|i: int| 0 <= i < m[t].len() ==> {
            &&& present(#[trigger] m[t][i]) ==> present(m2[t][i]) && target(m2[t][i]) == target(m[t][i])
            &&& usable(m[t][i]) ==> usable(m2[t][i])
        }
    }
}

/// Tables of 512 entries on frames that the allocator holds as used, whose
/// present entries point at tables that are held.
pub open spec fn maps_wf(m: TableMap, frames: Seq<bool>) -> bool {
    &&& frames.len() == FRAME_COUNT
    &&& forall|t: u64| #[trigger] m.contains_key(t) ==> {
        &&& m[t].len() == 512
        &&& t % 4096 == 0
        &&& t / 4096 < FRAME_COUNT
        &&& frames[(t / 4096) as int]
    }
    &&& forall|t: u64, i: int| #![trigger m[t][i]] m.contains_key(t) && 0 <= i < 512 && present(m[t][i]) ==> m.contains_key(target(m[t][i]))
}

/// A table of 512 entries that are not present.
pub open spec fn empty_table() -> Seq<PageMapEntry> {
    Seq::new(512, |i: int| PageMapEntry { data: 0 })
}

/// Growing is transitive.
proof fn lemma_grows_trans(a: TableMap, b: TableMap, c: TableMap)
    requires
        grows(a, b),
        grows(b, c),
    ensures
        grows(a, c),
{
    assert forall|t: u64| #[trigger] a.contains_key(t) implies c.contains_key(t) && c[t].len() == a[t].len()
        && forall|i: int| 0 <= i < a[t].len() ==> {
            &&& present(#[trigger] a[t][i]) ==> present(c[t][i]) && target(c[t][i]) == target(a[t][i])
            &&& usable(a[t][i]) ==> usable(c[t][i])
        } by {
        assert(b.contains_key(t));
        assert forall|i: int| 0 <= i < a[t].len() implies {
            &&& present(#[trigger] a[t][i]) ==> present(c[t][i]) && target(c[t][i]) == target(a[t][i])
            &&& usable(a[t][i]) ==> usable(c[t][i])
        } by {
            let x = b[t][i];
        }
    }
}

/// A page reached from a table is still reached after the tables grow.
proof fn lemma_mapped_grows(m: TableMap, m2: TableMap, t: u64, level: int, p: u64)
    requires
        grows(m, m2),
        mapped(m, t, level, p),
    ensures
        mapped(m2, t, level, p),
    decreases level,
{
    lemma_level(p, level);
    let i = part_of(p, level as i32) as int;
    assert(m.contains_key(t));
    let e = m[t][i];
    assert(present(e));
    assert(usable(m2[t][i]));
    if level > 1 {
        lemma_mapped_grows(m, m2, target(e), level - 1, p);
    }
}

/// Whether the page that holds `p` is among the `k` pages from the one
/// that holds `a`, inside the table of paging level `level` that covers `a`.
pub open spec fn covered(a: u64, level: int, k: int, p: u64) -> bool {
    &&& table_of(p, level) == table_of(a, level)
    &&& page_in(a, level) <= page_in(p, level) < page_in(a, level) + k
}

/// Pages from the one that holds `a` to the end of the table of paging
/// level `level` that covers it.
pub open spec fn pages_left(a: u64, level: int) -> int {
    span(level) - page_in(a, level)
}

/// How many pages `setup_page_map` maps from `a` at paging level `level`
/// when asked for `n`: all of them, or as many as the table covers.
pub open spec fn pages_mapped(a: u64, level: int, n: int) -> int {
    if n <= pages_left(a, level) { n } else { pages_left(a, level) }
}

/// A position `x` in a run of tables of `s` pages, split as `x_hi` tables
/// and `x_lo` pages, that lies among the `k` pages from `c_hi`, `c_lo`
/// without leaving that table, lies in the same table.
proof fn lemma_split(x_hi: int, x_lo: int, c_hi: int, c_lo: int, s: int, k: int)
    requires
        s > 0,
        0 <= x_lo < s,
        0 <= c_lo,
        c_lo + k <= s,
        c_hi * s + c_lo <= x_hi * s + x_lo < c_hi * s + c_lo + k,
    ensures
        x_hi == c_hi,
        c_lo <= x_lo < c_lo + k,
{
    if x_hi < c_hi {
        assert(x_hi * s + s <= c_hi * s) by (nonlinear_arith)
            requires x_hi < c_hi, s > 0;
    } else if x_hi > c_hi {
        assert(c_hi * s + s <= x_hi * s) by (nonlinear_arith)
            requires c_hi < x_hi, s > 0;
    }
}

/// The index of address `p` at paging level `j`.
pub open spec fn index_at(p: u64, j: int) -> u64 {
    part_of(p, j as i32)
}

/// An address whose indices below paging level `level` are all 0 is at
/// the first page under its entry of that level.
proof fn lemma_low_zero(p: u64, level: int)
    requires
        2 <= level <= 4,
        forall|j: int| 1 <= j < level ==> #[trigger] index_at(p, j) == 0,
    ensures
        page_in(p, level - 1) == 0,
    decreases level,
{
    lemma_level(p, level - 1);
    assert(index_at(p, level - 1) == 0);
    if level > 2 {
        lemma_low_zero(p, level - 1);
    }
}

/// Writing the index at paging level `level` changes no other index and no
/// address bit above the level.
proof fn lemma_set_part(p: u64, level: int, v: u64, other: int)
    requires
        1 <= level <= 4,
        1 <= other <= 4,
        other != level,
    ensures
        part_of(with_part(p, level as i32, v), level as i32) == v & mask(9),
        part_of(with_part(p, level as i32, v), other as i32) == part_of(p, other as i32),
        table_of(with_part(p, level as i32, v), level) == table_of(p, level),
        other > level ==> bits_of(with_part(p, level as i32, v), level_lo(other), 64) == bits_of(p, level_lo(other), 64),
        level >= 2 ==> page_in(with_part(p, level as i32, v), level - 1) == page_in(p, level - 1),
{
    let lo = level_lo(level);
    let hi = level_hi(level);
    lemma_get_set_same(p, lo, hi, v);
    lemma_get_set_disjoint(p, lo, hi, v, level_lo(other), level_hi(other));
    lemma_get_set_disjoint(p, lo, hi, v, hi, 64);
    if other > level {
        lemma_get_set_disjoint(p, lo, hi, v, level_lo(other), 64);
    }
    if level >= 2 {
        lemma_get_set_disjoint(p, lo, hi, v, 12, lo);
    }
}

/// The page maps of an address space.
pub struct PageMaps {
    tables: HashMap<u64, Vec<PageMapEntry>>,
}

impl View for PageMaps {
    type V = TableMap;

    closed spec fn view(&self) -> TableMap {
        Map::new(|k: u64| self.tables@.contains_key(k), |k: u64| self.tables@[k]@)
    }
}

impl PageMaps {
    /// No tables.
    pub fn new() -> (r: Self)
        ensures
            r@ == Map::<u64, Seq<PageMapEntry>>::empty(),
    {
        let r = PageMaps { tables: HashMap::new() };
        assert(r@ =~= Map::<u64, Seq<PageMapEntry>>::empty());
        r
    }

    /// The table at `addr`, if one is held there.
    pub fn table(&self, addr: u64) -> (r: Option<&Vec<PageMapEntry>>)
        ensures
            r is Some <==> self@.contains_key(addr),
            r matches Some(v) ==> v@ == self@[addr],
    {
        self.tables.get(&addr)
    }

    /// Replaces entry `i` of the table at `t` with `e`.
    fn set_entry(&mut self, t: u64, i: usize, e: PageMapEntry)
        requires
            old(self)@.contains_key(t),
            i < old(self)@[t].len(),
        ensures
            final(self)@ == old(self)@.insert(t, old(self)@[t].update(i as int, e)),
    {
        let mut tbl = self.tables.remove(&t).unwrap();
        tbl.set(i, e);
        self.tables.insert(t, tbl);
        assert(self@ =~= old(self)@.insert(t, old(self)@[t].update(i as int, e)));
    }

    /// Makes entry `index` of the table at `t` writable and open to user
    /// mode.
    fn open_entry(&mut self, mm: &BitmapMemoryManager, t: u64, index: usize)
        requires
            maps_wf(old(self)@, mm@),
            old(self)@.contains_key(t),
            index < 512,
        ensures
            maps_wf(final(self)@, mm@),
            grows(old(self)@, final(self)@),
            final(self)@ == old(self)@.insert(t, old(self)@[t].update(index as int, opened(old(self)@[t][index as int]))),
            present(old(self)@[t][index as int]) ==> usable(final(self)@[t][index as int])
                && target(final(self)@[t][index as int]) == target(old(self)@[t][index as int]),
    {
        let mut e = self.tables.get(&t).unwrap()[index];
        let ghost e0 = e;
        e.set_writable(true);
        e.set_user(true);
        proof {
            lemma_entry_flag_roundtrip(e0.data, 1, true, 0);
            lemma_entry_flag_roundtrip(e0.data, 1, true, 2);
            let d1 = with_bit(e0.data, 1, true);
            lemma_entry_flag_roundtrip(d1, 2, true, 0);
            lemma_entry_flag_roundtrip(d1, 2, true, 1);
            lemma_entry_flag_roundtrip(e0.data, 1, true, 3);
            assert(e == opened(e0));
        }
        self.set_entry(t, index, e);
        proof {
            assert forall|u: u64, i: int| #![trigger self@[u][i]] self@.contains_key(u) && 0 <= i < 512 && present(self@[u][i])
                implies self@.contains_key(target(self@[u][i])) by {
                if u == t && i == index {
                    assert(present(e0));
                } else {
                    assert(self@[u][i] == old(self)@[u][i]);
                }
            }
        }
    }

}

/// Takes a free frame from `mm` and holds an empty table on it; gives
/// its address. Fails with `NoEnoughMemory` when `mm` has no free frame.
pub fn new_page_map(maps: &mut PageMaps, mm: &mut BitmapMemoryManager) -> (r: Result<u64, Code>)
    requires
        old(mm).wf(),
        maps_wf(old(maps)@, old(mm)@),
    ensures
        final(mm).wf(),
        final(mm).begin() == old(mm).begin(),
        final(mm).end() == old(mm).end(),
        maps_wf(final(maps)@, final(mm)@),
        grows(old(maps)@, final(maps)@),
        r matches Ok(a) ==> {
            &&& old(mm).fits((a / 4096) as int, 1)
            &&& forall|s: int| old(mm).begin() <= s < a / 4096 ==> !old(mm).fits(s, 1)
            &&& a % 4096 == 0
            &&& !old(maps)@.contains_key(a)
            &&& final(maps)@ == old(maps)@.insert(a, empty_table())
            &&& final(mm)@ == set_range(old(mm)@, (a / 4096) as int, 1, true)
        },
        r matches Err(e) ==> e == Code::NoEnoughMemory && !old(mm).has_fit(1)
            && final(maps)@ == old(maps)@ && final(mm)@ == old(mm)@,
        final(mm).free_frames() + (if r is Ok { 1nat } else { 0nat }) == old(mm).free_frames(),
{
    proof { old(mm).lemma_bounds(); }
    let f = match mm.allocate(1) {
        Ok(f) => f,
        Err(e) => {
            proof {
                assert forall|t: u64| #[trigger] old(maps)@.contains_key(t) implies true by {}
            }
            return Err(e);
        },
    };
    let id = f.id();
    proof {
        old(mm).lemma_bounds();
        lemma_count_free_take(old(mm)@, old(mm).begin() as int, old(mm).end() as int, id as int);
    }
    assert(id < FRAME_COUNT);
    let addr: u64 = id as u64 * 4096;
    let mut table: Vec<PageMapEntry> = Vec::new();
    let mut k: usize = 0;
    while k < 512
        invariant
            k <= 512,
            table@ == Seq::new(k as nat, |i: int| PageMapEntry { data: 0 }),
        decreases 512 - k,
    {
        table.push(PageMapEntry { data: 0 });
        k = k + 1;
        assert(table@ =~= Seq::new(k as nat, |i: int| PageMapEntry { data: 0 }));
    }
    proof {
        assert(!old(mm)@[id as int]);
        if old(maps)@.contains_key(addr) {
            assert(old(mm)@[(addr / 4096) as int]);
        }
    }
    maps.tables.insert(addr, table);
    proof {
        assert(maps@ =~= old(maps)@.insert(addr, empty_table()));
        assert(0u64 & 1u64 == 0) by (bit_vector);
        assert forall|t: u64, i: int| #![trigger maps@[t][i]] maps@.contains_key(t) && 0 <= i < 512 && present(maps@[t][i])
            implies maps@.contains_key(target(maps@[t][i])) by {
            if t == addr {
                assert(bits_of(0, 0, 1) == 0) by (bit_vector);
                assert(maps@[t][i].data == 0);
            } else {
                assert(old(maps)@.contains_key(t));
                assert(maps@[t][i] == old(maps)@[t][i]);
            }
        }
        assert forall|t: u64| #[trigger] maps@.contains_key(t) implies {
            &&& maps@[t].len() == 512
            &&& t % 4096 == 0
            &&& t / 4096 < FRAME_COUNT
            &&& mm@[(t / 4096) as int]
        } by {
            if t != addr {
                assert(old(maps)@.contains_key(t));
                assert(t / 4096 != id);
            }
        }
    }
    Ok(addr)
}

/// The entry for `index` of the table at `t`, pointed at a fresh empty
/// table when it is not present: gives the address the entry points at.
/// Fails with `NoEnoughMemory`, changing nothing, when a fresh table is
/// needed and `mm` has no free frame.
pub fn set_new_page_map_if_not_present(maps: &mut PageMaps, mm: &mut BitmapMemoryManager, t: u64, index: usize) -> (r: Result<u64, Code>)
    requires
        old(mm).wf(),
        maps_wf(old(maps)@, old(mm)@),
        old(maps)@.contains_key(t),
        index < 512,
    ensures
        final(mm).wf(),
        final(mm).begin() == old(mm).begin(),
        final(mm).end() == old(mm).end(),
        maps_wf(final(maps)@, final(mm)@),
        grows(old(maps)@, final(maps)@),
        present(old(maps)@[t][index as int]) ==> r == Ok::<u64, Code>(target(old(maps)@[t][index as int]))
            && final(maps)@ == old(maps)@ && final(mm)@ == old(mm)@,
        !present(old(maps)@[t][index as int]) ==> {
            &&& r matches Ok(a) ==> {
                &&& old(mm).fits((a / 4096) as int, 1)
                &&& forall|s: int| old(mm).begin() <= s < a / 4096 ==> !old(mm).fits(s, 1)
                &&& final(maps)@ == old(maps)@.insert(a, empty_table()).insert(t,
                    old(maps)@[t].update(index as int, pointed(old(maps)@[t][index as int], a)))
                &&& final(mm)@ == set_range(old(mm)@, (a / 4096) as int, 1, true)
            }
            &&& r matches Err(e) ==> e == Code::NoEnoughMemory && !old(mm).has_fit(1)
                && final(maps)@ == old(maps)@ && final(mm)@ == old(mm)@
        },
        r is Err ==> !final(mm).has_fit(1),
        r matches Ok(a) ==> final(maps)@.contains_key(a) && final(maps)@.contains_key(t)
            && present(final(maps)@[t][index as int]) && target(final(maps)@[t][index as int]) == a,
        final(mm).free_frames() <= old(mm).free_frames() <= final(mm).free_frames() + 1,
{
    let e = maps.tables.get(&t).unwrap()[index];
    if e.persent() {
        proof {
            assert(maps@.contains_key(target(e)));
        }
        return Ok(e.pointer_addr());
    }
    let a = match new_page_map(maps, mm) {
        Ok(a) => a,
        Err(err) => {
            proof {
                assert forall|x: int| !mm.fits(x, 1) by {
                    assert(!old(mm).fits(x, 1));
                    if mm.fits(x, 1) {
                        assert(!old(mm)@[x]);
                    }
                }
            }
            return Err(err);
        },
    };
    let ghost mid = maps@;
    let mut ne = e;
    ne.set_pointer(a);
    ne.set_present(true);
    proof {
        old(mm).lemma_bounds();
        assert(a / 4096 < FRAME_COUNT);
        assert(a < 0x10_0000_0000_0000);
        lemma_entry_addr_roundtrip(e.data, a >> 12, 0);
        let d1 = with_bits(e.data, 12, 52, a >> 12);
        lemma_entry_flag_roundtrip(d1, 0, true, 1);
        assert(ne == pointed(e, a));
        assert(((a >> 12u64) & mask(40)) * 4096 == a) by (bit_vector)
            requires a % 4096 == 0, a < 0x10_0000_0000_0000;
        assert(target(ne) == a);
        assert(present(ne));
    }
    maps.set_entry(t, index, ne);
    proof {
        assert(grows(old(maps)@, maps@)) by {
            assert forall|u: u64| #[trigger] old(maps)@.contains_key(u) implies {
                &&& maps@.contains_key(u)
                &&& maps@[u].len() == old(maps)@[u].len()
                &&& forall|i: int| 0 <= i < old(maps)@[u].len() ==> {
                    &&& present(#[trigger] old(maps)@[u][i]) ==> present(maps@[u][i]) && target(maps@[u][i]) == target(old(maps)@[u][i])
                    &&& usable(old(maps)@[u][i]) ==> usable(maps@[u][i])
                }
            } by {
                assert(u != a);
            }
        }
        assert forall|u: u64, i: int| #![trigger maps@[u][i]] maps@.contains_key(u) && 0 <= i < 512 && present(maps@[u][i])
            implies maps@.contains_key(target(maps@[u][i])) by {
            if u == t && i == index {
            } else {
                assert(mid.contains_key(u));
                assert(maps@[u][i] == mid[u][i]);
            }
        }
    }
    Ok(a)
}

/// Maps `num_4kpages` pages from `addr` under the table at `t` of paging
/// level `level`, as far as that table reaches: each entry on the way is
/// pointed at a fresh empty table (or page) when it is not present, and
/// made writable and open to user mode. Gives how many pages are left
/// for the tables after it. Fails with `NoEnoughMemory` when a fresh
/// frame is needed and `mm` has none; what was mapped before stays. Each
/// page takes at most `level` fresh frames, so the call succeeds when more
/// than `level` times `num_4kpages` frames are free. On a page table
/// (level 1) the entries outside the run mapped are left as they were.
pub fn setup_page_map(maps: &mut PageMaps, mm: &mut BitmapMemoryManager, t: u64, level: i32, addr: LinearAddress4Level, num_4kpages: usize) -> (r: Result<usize, Code>)
    requires
        old(mm).wf(),
        maps_wf(old(maps)@, old(mm)@),
        old(maps)@.contains_key(t),
        1 <= level <= 4,
    ensures
        final(mm).wf(),
        final(mm).begin() == old(mm).begin(),
        final(mm).end() == old(mm).end(),
        maps_wf(final(maps)@, final(mm)@),
        grows(old(maps)@, final(maps)@),
        r matches Ok(rem) ==> {
            &&& rem == num_4kpages - pages_mapped(addr.addr, level as int, num_4kpages as int)
            &&& forall|p: u64| covered(addr.addr, level as int, num_4kpages - rem, p) ==> #[trigger] mapped(final(maps)@, t, level as int, p)
        },
        r matches Err(e) ==> e == Code::NoEnoughMemory && !final(mm).has_fit(1) && final(mm).free_frames() == 0,
        old(mm).free_frames() <= final(mm).free_frames() + level * num_4kpages,
        old(mm).free_frames() > level * num_4kpages ==> r is Ok,
        r matches Ok(rem) ==> old(mm).free_frames() <= final(mm).free_frames() + level * (num_4kpages - rem),
        level == 1 ==> (r matches Ok(rem) ==> forall|i: int| 0 <= i < 512
            && !(page_in(addr.addr, 1) <= i < page_in(addr.addr, 1) + (num_4kpages - rem))
            ==> #[trigger] final(maps)@[t][i] == old(maps)@[t][i]),
    decreases level,
{
    let ghost a0 = addr.addr;
    let ghost lv = level as int;
    let mut cur = addr;
    let mut num = num_4kpages;
    proof {
        lemma_level(a0, lv);
    }
    loop
        invariant
            mm.wf(),
            mm.begin() == old(mm).begin(),
            mm.end() == old(mm).end(),
            maps_wf(maps@, mm@),
            grows(old(maps)@, maps@),
            maps@.contains_key(t),
            1 <= level <= 4,
            lv == level,
            a0 == addr.addr,
            num <= num_4kpages,
            num_4kpages - num <= pages_left(a0, lv),
            0 <= page_in(a0, lv) < span(lv),
            num > 0 ==> num_4kpages - num < pages_left(a0, lv),
            num > 0 ==> table_of(cur.addr, lv) == table_of(a0, lv),
            num > 0 ==> page_in(cur.addr, lv) == page_in(a0, lv) + (num_4kpages - num),
            num > 0 && lv >= 2 && num < num_4kpages ==> page_in(cur.addr, lv - 1) == 0,
            num == num_4kpages ==> cur.addr == a0,
            forall|p: u64| covered(a0, lv, num_4kpages - num, p) ==> #[trigger] mapped(maps@, t, lv, p),
            old(mm).free_frames() <= mm.free_frames() + lv * (num_4kpages - num),
            lv == 1 ==> forall|i: int| 0 <= i < 512 && !(page_in(a0, 1) <= i < page_in(a0, 1) + (num_4kpages - num))
                ==> #[trigger] maps@[t][i] == old(maps)@[t][i],
        decreases num,
    {
        if num == 0 {
            proof {
                assert(lv * (num_4kpages - num) <= lv * num_4kpages) by (nonlinear_arith)
                    requires 1 <= lv, num <= num_4kpages;
            }
            return Ok(num);
        }
        let ghost c = cur.addr;
        let ghost done = num_4kpages - num;
        proof {
            lemma_level(c, lv);
        }
        let e = cur.part(level) as usize;
        let ghost s0 = maps@;
        let ghost f0 = mm.free_frames();
        let child = match set_new_page_map_if_not_present(maps, mm, t, e) {
            Ok(c) => c,
            Err(err) => {
                proof {
                    mm.lemma_free_frames_fit();
                    assert(lv * (num_4kpages - num) <= lv * num_4kpages) by (nonlinear_arith)
                        requires 1 <= lv, num <= num_4kpages;
                }
                return Err(err);
            },
        };
        let ghost f1 = mm.free_frames();
        maps.open_entry(mm, t, e);
        let ghost s1 = maps@;
        proof {
            if lv == 1 {
                assert forall|i: int| 0 <= i < 512 && !(page_in(a0, 1) <= i < page_in(a0, 1) + (done + 1))
                    implies #[trigger] maps@[t][i] == old(maps)@[t][i] by {
                    assert(i != e);
                    assert(maps@[t][i] == s0[t][i]);
                }
            }
        }
        proof {
            lemma_grows_trans(s0, maps@, maps@);
            assert(usable(s1[t][e as int]));
            assert(target(s1[t][e as int]) == child);
            assert(s1.contains_key(child));
            lemma_grows_trans(old(maps)@, s0, s1);
        }
        let ghost num_before = num;
        if level == 1 {
            num = num - 1;
            proof {
                let d0 = (num_4kpages - num_before) as int;
                let d1 = (num_4kpages - num) as int;
                assert(lv * d0 == d0 && lv * d1 == d1) by (nonlinear_arith)
                    requires lv == 1;
                assert forall|p: u64| covered(a0, lv, num_4kpages - num, p) implies #[trigger] mapped(maps@, t, lv, p) by {
                    lemma_level(p, lv);
                    if covered(a0, lv, done, p) {
                        lemma_mapped_grows(s0, maps@, t, lv, p);
                    } else {
                        assert(part_of(p, 1) == e);
                    }
                }
            }
        } else {
            let rem = match setup_page_map(maps, mm, child, level - 1, cur, num) {
                Ok(rem) => rem,
                Err(err) => {
                    proof {
                        let d = (num_4kpages - num) as int;
                        let n = num as int;
                        assert(lv * d + 1 + (lv - 1) * n <= lv * num_4kpages) by (nonlinear_arith)
                            requires 2 <= lv, n >= 1, d + n == num_4kpages;
                    }
                    return Err(err);
                },
            };
            proof {
                let k = num - rem;
                lemma_level(c, lv - 1);
                assert(k >= 1);
                let d = done as int;
                assert(lv * d + 1 + (lv - 1) * k <= lv * (d + k)) by (nonlinear_arith)
                    requires 2 <= lv, k >= 1;
                assert(f1 <= mm.free_frames() + (lv - 1) * k);
                assert(old(mm).free_frames() <= mm.free_frames() + lv * (d + k));
                assert(d + k == num_4kpages - rem);
            }
            proof {
                let k = num - rem;
                let sp = span(lv - 1);
                lemma_level(c, lv - 1);
                assert(k == pages_mapped(c, lv - 1, num as int));
                assert(grows(s1, maps@));
                assert forall|p: u64| covered(a0, lv, done + k, p) implies #[trigger] mapped(maps@, t, lv, p) by {
                    lemma_level(p, lv);
                    lemma_level(p, lv - 1);
                    if covered(a0, lv, done, p) {
                        lemma_grows_trans(s0, s1, maps@);
                        lemma_mapped_grows(s0, maps@, t, lv, p);
                    } else {
                        lemma_split(part_of(p, level) as int, page_in(p, lv - 1), e as int, page_in(c, lv - 1), sp, k);
                        assert(covered(c, lv - 1, num - rem, p));
                        assert(mapped(maps@, child, lv - 1, p));
                        assert(maps@[t][e as int] == maps@[t][part_of(p, level) as int]);
                    }
                }
            }
            num = rem;
        }
        proof {
            assert(num_4kpages - num <= pages_left(a0, lv));
        }
        if e == 511 {
            proof {
                assert(lv * (num_4kpages - num) <= lv * num_4kpages) by (nonlinear_arith)
                    requires 1 <= lv, num <= num_4kpages;
            }
            return Ok(num);
        }
        cur.set_part(level, e as u64 + 1);
        proof {
            lemma_set_part(c, lv, (e + 1) as u64, if lv == 1 { 2 } else { 1 });
            let v = (e + 1) as u64;
            assert(v & mask(9) == v) by (bit_vector)
                requires v < 512;
        }
        let mut l: i32 = 1;
        while l < level
            invariant
                1 <= l <= level <= 4,
                lv == level,
                part_of(cur.addr, level) == e + 1,
                table_of(cur.addr, lv) == table_of(c, lv),
                forall|j: int| 1 <= j < l ==> #[trigger] index_at(cur.addr, j) == 0,
            decreases level - l,
        {
            let ghost before = cur.addr;
            cur.set_part(l, 0);
            proof {
                lemma_set_part(before, l as int, 0, lv);
                assert(0u64 & mask(9) == 0) by (bit_vector);
                assert forall|j: int| 1 <= j < l + 1 implies #[trigger] index_at(cur.addr, j) == 0 by {
                    if j < l {
                        lemma_set_part(before, l as int, 0, j);
                        assert(index_at(before, j) == 0);
                    } else {
                        assert(part_of(cur.addr, l) == 0);
                    }
                }
                let x = bits_of(before, level_lo(lv), 64);
                lemma_nesting(before);
                lemma_nesting(cur.addr);
                lemma_level(before, lv);
                lemma_level(cur.addr, lv);
            }
            l = l + 1;
        }
        proof {
            lemma_level(cur.addr, lv);
            if lv >= 2 {
                lemma_low_zero(cur.addr, lv);
            }
        }
    }
}

/// Maps `num_4kpages` pages from `addr` under the four-level table at
/// `pml4` (see `setup_page_map`), as far as that table reaches.
pub fn setup_page_maps(maps: &mut PageMaps, mm: &mut BitmapMemoryManager, pml4: u64, addr: LinearAddress4Level, num_4kpages: usize) -> (r: Result<(), Code>)
    requires
        old(mm).wf(),
        maps_wf(old(maps)@, old(mm)@),
        old(maps)@.contains_key(pml4),
    ensures
        final(mm).wf(),
        final(mm).begin() == old(mm).begin(),
        final(mm).end() == old(mm).end(),
        maps_wf(final(maps)@, final(mm)@),
        grows(old(maps)@, final(maps)@),
        r is Ok ==> forall|p: u64| covered(addr.addr, 4, pages_mapped(addr.addr, 4, num_4kpages as int), p)
            ==> #[trigger] mapped(final(maps)@, pml4, 4, p),
        r matches Err(e) ==> e == Code::NoEnoughMemory && !final(mm).has_fit(1) && final(mm).free_frames() == 0,
        old(mm).free_frames() <= final(mm).free_frames() + 4 * num_4kpages,
        old(mm).free_frames() > 4 * num_4kpages ==> r is Ok,
{
    setup_page_map(maps, mm, pml4, 4, addr, num_4kpages)?;
    Ok(())
}

/// A fresh top-level table for an application: the lower half (entries
/// 0 to 255, the kernel's part) copied from the table at `current`, the
/// upper half empty. Gives its address, which becomes the task's CR3.
/// Fails with `NoEnoughMemory` when `mm` has no free frame.
pub fn setup_pml4(maps: &mut PageMaps, mm: &mut BitmapMemoryManager, current: u64) -> (r: Result<u64, Code>)
    requires
        old(mm).wf(),
        maps_wf(old(maps)@, old(mm)@),
        old(maps)@.contains_key(current),
    ensures
        final(mm).wf(),
        final(mm).begin() == old(mm).begin(),
        final(mm).end() == old(mm).end(),
        maps_wf(final(maps)@, final(mm)@),
        grows(old(maps)@, final(maps)@),
        r matches Ok(a) ==> {
            &&& old(mm).fits((a / 4096) as int, 1)
            &&& forall|s: int| old(mm).begin() <= s < a / 4096 ==> !old(mm).fits(s, 1)
            &&& !old(maps)@.contains_key(a)
            &&& final(maps)@ == old(maps)@.insert(a, old(maps)@[current].subrange(0, 256) + empty_table().subrange(256, 512))
            &&& final(mm)@ == set_range(old(mm)@, (a / 4096) as int, 1, true)
        },
        r matches Err(e) ==> e == Code::NoEnoughMemory && !old(mm).has_fit(1)
            && final(maps)@ == old(maps)@ && final(mm)@ == old(mm)@,
{
    let a = new_page_map(maps, mm)?;
    let ghost mid = maps@;
    proof {
        assert(old(maps)@[current].subrange(0, 0) + empty_table().subrange(0, 512) =~= empty_table());
        assert(mid.insert(a, empty_table()) =~= mid);
    }
    let mut i: usize = 0;
    while i < 256
        invariant
            mm.wf(),
            current != a,
            maps@.contains_key(current),
            maps@[current] == old(maps)@[current],
            old(maps)@[current].len() == 512,
            maps_wf(mid, mm@),
            mid == old(maps)@.insert(a, empty_table()),
            !old(maps)@.contains_key(a),
            old(maps)@.contains_key(current),
            i <= 256,
            maps@ == mid.insert(a, old(maps)@[current].subrange(0, i as int) + empty_table().subrange(i as int, 512)),
            maps_wf(maps@, mm@),
        decreases 256 - i,
    {
        let e = maps.tables.get(&current).unwrap()[i];
        let ghost before = maps@;
        maps.set_entry(a, i, e);
        proof {
            let cur_t = old(maps)@[current];
            assert(e == cur_t[i as int]);
            assert((cur_t.subrange(0, i as int) + empty_table().subrange(i as int, 512)).update(i as int, e)
                =~= cur_t.subrange(0, i + 1) + empty_table().subrange(i + 1, 512));
            assert(maps@ =~= mid.insert(a, cur_t.subrange(0, i + 1) + empty_table().subrange(i + 1, 512)));
            assert forall|u: u64, j: int| #![trigger maps@[u][j]] maps@.contains_key(u) && 0 <= j < 512 && present(maps@[u][j])
                implies maps@.contains_key(target(maps@[u][j])) by {
                if u == a && j == i {
                    assert(maps@[u][j] == old(maps)@[current][j]);
                    assert(old(maps)@[current][j] == mid[current][j]);
                } else {
                    assert(maps@[u][j] == before[u][j]);
                }
            }
        }
        i = i + 1;
    }
    proof {
        assert(grows(old(maps)@, maps@)) by {
            assert forall|u: u64| #[trigger] old(maps)@.contains_key(u) implies {
                &&& maps@.contains_key(u)
                &&& maps@[u].len() == old(maps)@[u].len()
                &&& forall|j: int| 0 <= j < old(maps)@[u].len() ==> {
                    &&& present(#[trigger] old(maps)@[u][j]) ==> present(maps@[u][j]) && target(maps@[u][j]) == target(old(maps)@[u][j])
                    &&& usable(old(maps)@[u][j]) ==> usable(maps@[u][j])
                }
            } by {
                assert(u != a);
            }
        }
    }
    Ok(a)
}

/// Gives back the frame of the top-level table at `pml4`, which no
/// entry points at, and drops the table.
pub fn free_pml4(maps: &mut PageMaps, mm: &mut BitmapMemoryManager, pml4: u64)
    requires
        old(mm).wf(),
        maps_wf(old(maps)@, old(mm)@),
        old(maps)@.contains_key(pml4),
        forall|t: u64, i: int| #![trigger old(maps)@[t][i]] old(maps)@.contains_key(t) && 0 <= i < 512
            && present(old(maps)@[t][i]) ==> target(old(maps)@[t][i]) != pml4,
    ensures
        final(mm).wf(),
        final(mm).begin() == old(mm).begin(),
        final(mm).end() == old(mm).end(),
        maps_wf(final(maps)@, final(mm)@),
        final(maps)@ == old(maps)@.remove(pml4),
        final(mm)@ == set_range(old(mm)@, (pml4 / 4096) as int, 1, false),
{
    proof {
        old(mm).lemma_bounds();
    }
    mm.free(FrameId::new((pml4 / 4096) as usize), 1);
    maps.tables.remove(&pml4);
    proof {
        assert(maps@ =~= old(maps)@.remove(pml4));
        assert forall|t: u64| #[trigger] maps@.contains_key(t) implies {
            &&& maps@[t].len() == 512
            &&& t % 4096 == 0
            &&& t / 4096 < FRAME_COUNT
            &&& mm@[(t / 4096) as int]
        } by {
            assert(old(maps)@.contains_key(t));
            assert(t / 4096 != pml4 / 4096);
        }
        assert forall|t: u64, i: int| #![trigger maps@[t][i]] maps@.contains_key(t) && 0 <= i < 512 && present(maps@[t][i])
            implies maps@.contains_key(target(maps@[t][i])) by {
            assert(old(maps)@[t][i] == maps@[t][i]);
        }
    }
}


/// The address whose page a page-fault action maps.
pub open spec fn fault_page(a: PageFaultAction) -> u64 {
    match a {
        PageFaultAction::MapPage(addr) => addr,
        PageFaultAction::CachePage { page, .. } => page,
    }
}

/// Handles a page fault with `error_code` at `causal_addr` in `task`, whose
/// top-level table is at `pml4`: decides as `page_fault_action` does, and
/// for a fault it can serve maps the page (for a mapped file, the caller
/// then fills it from the file as the action says). Fails with the
/// decision's error, or with `NoEnoughMemory` when a frame was needed and
/// `mm` had none.
pub fn handle_page_fault(maps: &mut PageMaps, mm: &mut BitmapMemoryManager, pml4: u64, task: &Task, error_code: u64, causal_addr: u64) -> (r: Result<PageFaultAction, Code>)
    requires
        old(mm).wf(),
        maps_wf(old(maps)@, old(mm)@),
        old(maps)@.contains_key(pml4),
        task.app_stack_size_spec() <= APP_STACK_ADDR,
        forall|i: int| 0 <= i < task.file_maps_spec().len() ==> #[trigger] task.file_maps_spec()[i].vaddr_begin % 4096 == 0,
    ensures
        final(mm).wf(),
        maps_wf(final(maps)@, final(mm)@),
        grows(old(maps)@, final(maps)@),
        ({
            let d = page_fault_spec(error_code, causal_addr, task.dpaging_begin_spec(), task.dpaging_end_spec(),
                task.app_stack_size_spec(), task.file_maps_spec());
            &&& d is Err ==> r == d && final(maps)@ == old(maps)@ && final(mm)@ == old(mm)@
            &&& d matches Ok(a) ==> {
                ||| r == d && mapped(final(maps)@, pml4, 4, fault_page(a))
                ||| r == Err::<PageFaultAction, Code>(Code::NoEnoughMemory) && !final(mm).has_fit(1)
            }
        }),
{
    let action = page_fault_action(error_code, causal_addr, task)?;
    let page = match action {
        PageFaultAction::MapPage(a) => a,
        PageFaultAction::CachePage { page, .. } => page,
    };
    let addr = LinearAddress4Level { addr: page };
    proof {
        lemma_level(page, 4);
    }
    setup_page_maps(maps, mm, pml4, addr, 1)?;
    proof {
        assert(pages_mapped(page, 4, 1) == 1);
        assert(covered(page, 4, 1, page));
    }
    Ok(action)
}

} // verus!
