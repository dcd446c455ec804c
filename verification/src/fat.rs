//! FAT32: the boot sector's parameters, directory entries and their 8.3
//! names, and the cluster chains of the file allocation table.
use vstd::prelude::*;
use crate::bytes::{copy_bytes, le16, le32, le64, put16, put32, read_u16, read_u32, read_u64, write_u16, write_u32};
use crate::error::Code;

verus! {

/// The value that ends a cluster chain.
pub const END_OF_CLUSTER_CHAIN: u64 = 0x0fff_ffff;

/// The attribute bits of a directory entry.
#[derive(Clone, Copy, Debug, PartialEq, Eq, Structural)]
pub enum Attribute {
    ReadOnly,
    Hidden,
    System,
    VolumeID,
    Directory,
    Archive,
    LongName,
}

impl Attribute {
    /// The attribute's value in a directory entry.
    pub fn value(&self) -> (r: u8)
        ensures
            r == match self {
                Attribute::ReadOnly => 0x01u8,
                Attribute::Hidden => 0x02,
                Attribute::System => 0x04,
                Attribute::VolumeID => 0x08,
                Attribute::Directory => 0x10,
                Attribute::Archive => 0x20,
                Attribute::LongName => 0x0f,
            },
    {
        match self {
            Attribute::ReadOnly => 0x01,
            Attribute::Hidden => 0x02,
            Attribute::System => 0x04,
            Attribute::VolumeID => 0x08,
            Attribute::Directory => 0x10,
            Attribute::Archive => 0x20,
            Attribute::LongName => 0x0f,
        }
    }
}

/// A 32-byte directory entry.
#[derive(Clone, Copy, Debug)]
pub struct DirectoryEntry {
    pub name: [u8; 11],
    pub attr: u8,
    pub nt_res: u8,
    pub crt_time_tenth: u8,
    pub crt_time: u16,
    pub crt_date: u16,
    pub lst_acc_date: u16,
    pub fst_clus_hl: u16,
    pub wrt_time: u16,
    pub wrt_date: u16,
    pub fst_clus_lo: u16,
    pub file_size: u32,
}

/// `c` in upper case when it is a lower-case ASCII letter.
pub open spec fn upper(c: u8) -> u8 {
    if 0x61 <= c <= 0x7a { (c - 0x20) as u8 } else { c }
}

fn upper_exec(c: u8) -> (r: u8)
    ensures
        r == upper(c),
{
    if 0x61 <= c && c <= 0x7a { c - 0x20 } else { c }
}

/// The first `n` characters of `s` in upper case, padded with spaces.
pub open spec fn padded(s: Seq<u8>, n: nat) -> Seq<u8> {
    Seq::new(n, |i: int| if i < s.len() { upper(s[i]) } else { 0x20u8 })
}

/// Where the last `b` of `s` is, or -1.
pub open spec fn last_of(s: Seq<u8>, b: u8) -> int
    decreases s.len(),
{
    if s.len() == 0 {
        -1
    } else if s.last() == b {
        s.len() - 1
    } else {
        last_of(s.drop_last(), b)
    }
}

/// Where the last `.` of `s` is, or -1.
pub open spec fn last_dot(s: Seq<u8>) -> int {
    last_of(s, 0x2e)
}

/// The name part of `s`: up to its last `.`, or all of it.
pub open spec fn base_part(s: Seq<u8>) -> Seq<u8> {
    if last_dot(s) >= 0 { s.subrange(0, last_dot(s)) } else { s }
}

/// The extension part of `s`: after its last `.`, or nothing.
pub open spec fn ext_part(s: Seq<u8>) -> Seq<u8> {
    if last_dot(s) >= 0 { s.subrange(last_dot(s) + 1, s.len() as int) } else { Seq::empty() }
}

/// The 11 bytes that `set_file_name` stores for `s`.
pub open spec fn short_name(s: Seq<u8>) -> Seq<u8> {
    padded(base_part(s), 8) + padded(ext_part(s), 3)
}

/// `s` without its trailing spaces.
pub open spec fn trim_end(s: Seq<u8>) -> Seq<u8>
    decreases s.len(),
{
    if s.len() > 0 && s.last() == 0x20 { trim_end(s.drop_last()) } else { s }
}

proof fn lemma_last_of(s: Seq<u8>, b: u8)
    ensures
        -1 <= last_of(s, b) < s.len(),
        last_of(s, b) >= 0 ==> s[last_of(s, b)] == b,
        forall|i: int| last_of(s, b) < i < s.len() ==> s[i] != b,
    decreases s.len(),
{
    if s.len() > 0 && s.last() != b {
        lemma_last_of(s.drop_last(), b);
        assert forall|i: int| last_of(s, b) < i < s.len() implies s[i] != b by {
            if i < s.len() - 1 {
                assert(s[i] == s.drop_last()[i]);
            }
        }
    }
}

proof fn lemma_last_dot(s: Seq<u8>)
    ensures
        -1 <= last_dot(s) < s.len(),
        last_dot(s) >= 0 ==> s[last_dot(s)] == 0x2e,
        forall|i: int| last_dot(s) < i < s.len() ==> s[i] != 0x2e,
{
    lemma_last_of(s, 0x2e);
}

/// Where the last `b` of `s` is, if anywhere.
fn find_last(s: &[u8], b: u8) -> (r: Option<usize>)
    ensures
        r is Some <==> last_of(s@, b) >= 0,
        r matches Some(i) ==> i == last_of(s@, b),
{
    proof { lemma_last_of(s@, b); }
    let mut i: usize = s.len();
    while i > 0
        invariant
            i <= s@.len(),
            forall|k: int| i <= k < s@.len() ==> s@[k] != b,
            last_of(s@, b) < i,
            -1 <= last_of(s@, b) < s@.len(),
            last_of(s@, b) >= 0 ==> s@[last_of(s@, b)] == b,
            forall|k: int| last_of(s@, b) < k < s@.len() ==> s@[k] != b,
        decreases i,
    {
        if s[i - 1] == b {
            return Some(i - 1);
        }
        i = i - 1;
    }
    None
}

/// `s` from `from` up to `to`, copied.
fn slice_part(s: &[u8], from: usize, to: usize) -> (r: Vec<u8>)
    requires
        from <= to <= s@.len(),
    ensures
        r@ == s@.subrange(from as int, to as int),
{
    crate::bytes::copy_bytes(s, from, to - from)
}

/// The name and extension parts of `name`.
fn split_name(name: &[u8]) -> (r: (Vec<u8>, Vec<u8>))
    ensures
        r.0@ == base_part(name@),
        r.1@ == ext_part(name@),
{
    proof { lemma_last_dot(name@); }
    let _len = name.len();
    match find_last(name, 0x2e) {
        Some(d) => (slice_part(name, 0, d), slice_part(name, d + 1, name.len())),
        None => (slice_part(name, 0, name.len()), Vec::new()),
    }
}

/// Reads the name and the extension of `entry` without their trailing
/// spaces.
pub fn read_name(entry: &DirectoryEntry) -> (r: (Vec<u8>, Vec<u8>))
    ensures
        r.0@ == trim_end(entry.name@.subrange(0, 8)),
        r.1@ == trim_end(entry.name@.subrange(8, 11)),
{
    let mut base_len: usize = 8;
    while base_len > 0 && entry.name[base_len - 1] == 0x20
        invariant
            base_len <= 8,
            trim_end(entry.name@.subrange(0, 8)) == trim_end(entry.name@.subrange(0, base_len as int)),
        decreases base_len,
    {
        assert(entry.name@.subrange(0, base_len as int).drop_last() =~= entry.name@.subrange(0, base_len - 1));
        base_len = base_len - 1;
    }
    let mut ext_len: usize = 3;
    while ext_len > 0 && entry.name[8 + ext_len - 1] == 0x20
        invariant
            ext_len <= 3,
            trim_end(entry.name@.subrange(8, 11)) == trim_end(entry.name@.subrange(8, 8 + ext_len as int)),
        decreases ext_len,
    {
        assert(entry.name@.subrange(8, 8 + ext_len as int).drop_last() =~= entry.name@.subrange(8, 8 + ext_len - 1));
        ext_len = ext_len - 1;
    }
    let mut base: Vec<u8> = Vec::new();
    let mut i: usize = 0;
    while i < base_len
        invariant
            base_len <= 8,
            i <= base_len,
            base@ == entry.name@.subrange(0, i as int),
        decreases base_len - i,
    {
        base.push(entry.name[i]);
        i = i + 1;
        assert(base@ =~= entry.name@.subrange(0, i as int));
    }
    let mut ext: Vec<u8> = Vec::new();
    let mut j: usize = 0;
    while j < ext_len
        invariant
            ext_len <= 3,
            j <= ext_len,
            ext@ == entry.name@.subrange(8, 8 + j as int),
        decreases ext_len - j,
    {
        ext.push(entry.name[8 + j]);
        j = j + 1;
        assert(ext@ =~= entry.name@.subrange(8, 8 + j as int));
    }
    proof {
        let b = entry.name@.subrange(0, base_len as int);
        let e = entry.name@.subrange(8, 8 + ext_len as int);
        assert(base_len == 0 || b.last() != 0x20);
        assert(ext_len == 0 || e.last() != 0x20);
        assert(trim_end(b) == b);
        assert(trim_end(e) == e);
    }
    (base, ext)
}

/// Stores `name` in `entry`: the part before its last `.` (all of it when
/// there is none) as the name and the rest as the extension, each in upper
/// case, cut or padded with spaces to 8 and 3 characters.
pub fn set_file_name(entry: &mut DirectoryEntry, name: &[u8])
    ensures
        final(entry).name@ == short_name(name@),
        *final(entry) == (DirectoryEntry { name: final(entry).name, ..*old(entry) }),
{
    let (base, ext) = split_name(name);
    let mut i: usize = 0;
    while i < 8
        invariant
            i <= 8,
            base@ == base_part(name@),
            ext@ == ext_part(name@),
            forall|k: int| 0 <= k < i ==> entry.name@[k] == padded(base@, 8)[k],
            forall|k: int| 8 <= k < 11 ==> entry.name@[k] == old(entry).name@[k],
            *entry == (DirectoryEntry { name: entry.name, ..*old(entry) }),
        decreases 8 - i,
    {
        let c = if i < base.len() { upper_exec(base[i]) } else { 0x20 };
        entry.name[i] = c;
        i = i + 1;
    }
    let mut j: usize = 0;
    while j < 3
        invariant
            j <= 3,
            base@ == base_part(name@),
            ext@ == ext_part(name@),
            forall|k: int| 0 <= k < 8 ==> entry.name@[k] == padded(base@, 8)[k],
            forall|k: int| 0 <= k < j ==> entry.name@[8 + k] == padded(ext@, 3)[k],
            *entry == (DirectoryEntry { name: entry.name, ..*old(entry) }),
        decreases 3 - j,
    {
        let c = if j < ext.len() { upper_exec(ext[j]) } else { 0x20 };
        entry.name[8 + j] = c;
        j = j + 1;
    }
    assert(entry.name@ =~= short_name(name@));
}

impl DirectoryEntry {
    /// Reads the entry from the 32 bytes at the start of `b`.
    pub fn from_bytes(b: &[u8]) -> (r: Self)
        requires
            b@.len() >= 32,
        ensures
            r.name@ == b@.subrange(0, 11),
            r.attr == b@[11],
            r.nt_res == b@[12],
            r.crt_time_tenth == b@[13],
            r.crt_time == le16(b@, 14),
            r.crt_date == le16(b@, 16),
            r.lst_acc_date == le16(b@, 18),
            r.fst_clus_hl == le16(b@, 20),
            r.wrt_time == le16(b@, 22),
            r.wrt_date == le16(b@, 24),
            r.fst_clus_lo == le16(b@, 26),
            r.file_size == le32(b@, 28),
    {
        let name = [b[0], b[1], b[2], b[3], b[4], b[5], b[6], b[7], b[8], b[9], b[10]];
        let r = DirectoryEntry {
            name,
            attr: b[11],
            nt_res: b[12],
            crt_time_tenth: b[13],
            crt_time: read_u16(b, 14),
            crt_date: read_u16(b, 16),
            lst_acc_date: read_u16(b, 18),
            fst_clus_hl: read_u16(b, 20),
            wrt_time: read_u16(b, 22),
            wrt_date: read_u16(b, 24),
            fst_clus_lo: read_u16(b, 26),
            file_size: read_u32(b, 28),
        };
        assert(r.name@ =~= b@.subrange(0, 11));
        r
    }

    /// The entry's first cluster: the high half from `fst_clus_hl`, the low
    /// half from `fst_clus_lo`.
    pub fn first_cluster(&self) -> (r: u32)
        ensures
            r == self.fst_clus_hl * 0x1_0000 + self.fst_clus_lo,
    {
        let hl = self.fst_clus_hl;
        let lo = self.fst_clus_lo;
        let r = (hl as u32) << 16 | lo as u32;
        assert(((hl as u32) << 16 | lo as u32) == hl * 0x1_0000 + lo) by (bit_vector);
        r
    }

    /// Sets the entry's first cluster to `clus`.
    pub fn set_first_cluster(&mut self, clus: u32)
        ensures
            final(self).fst_clus_lo == clus % 0x1_0000,
            final(self).fst_clus_hl == clus / 0x1_0000,
            *final(self) == (DirectoryEntry { fst_clus_lo: final(self).fst_clus_lo, fst_clus_hl: final(self).fst_clus_hl, ..*old(self) }),
    {
        self.fst_clus_lo = (clus % 0x1_0000) as u16;
        self.fst_clus_hl = (clus / 0x1_0000) as u16;
    }

    /// Whether the entry's name is `name`: `name`'s name part is at most 8
    /// characters and its extension at most 3, and in upper case, padded
    /// with spaces, they are the entry's 11 bytes.
    pub fn name_is_equal(&self, name: &[u8]) -> (r: bool)
        ensures
            r == (base_part(name@).len() <= 8 && ext_part(name@).len() <= 3 && self.name@ == short_name(name@)),
    {
        let (base, ext) = split_name(name);
        if base.len() > 8 || ext.len() > 3 {
            return false;
        }
        let mut i: usize = 0;
        while i < 11
            invariant
                i <= 11,
                base@ == base_part(name@),
                ext@ == ext_part(name@),
                base@.len() <= 8,
                ext@.len() <= 3,
                forall|k: int| 0 <= k < i ==> self.name@[k] == short_name(name@)[k],
            decreases 11 - i,
        {
            let c = if i < 8 {
                if i < base.len() { upper_exec(base[i]) } else { 0x20 }
            } else {
                if i - 8 < ext.len() { upper_exec(ext[i - 8]) } else { 0x20 }
            };
            if self.name[i] != c {
                return false;
            }
            i = i + 1;
        }
        assert(self.name@ =~= short_name(name@));
        true
    }
}

/// Whether the table value `clus` ends a chain: FAT32's end-of-chain
/// marks run from 0x0fff_fff8 up, as `next_cluster` reads them.
pub open spec fn is_eoc(clus: u32) -> bool {
    clus >= 0x0fff_fff8
}

pub fn is_end_of_cluster_chain(clus: u32) -> (r: bool)
    ensures
        r == is_eoc(clus),
{
    clus >= 0x0fff_fff8
}

/// The cluster after `cluster` in the table `fat`, or
/// `END_OF_CLUSTER_CHAIN` at the end of a chain.
pub fn next_cluster(fat: &[u32], cluster: u64) -> (r: u64)
    requires
        cluster < fat@.len(),
    ensures
        r == if fat@[cluster as int] >= 0x0fff_fff8 { END_OF_CLUSTER_CHAIN as int } else { fat@[cluster as int] as int },
{
    let next = fat[cluster as usize];
    if next >= 0x0fff_fff8 {
        END_OF_CLUSTER_CHAIN
    } else {
        next as u64
    }
}

/// Whether following `fat` from cluster `c` stays in the table and meets
/// the end of the chain within `n` steps.
pub open spec fn reaches_end(fat: Seq<u32>, c: int, n: nat) -> bool
    decreases n,
{
    &&& 0 <= c < fat.len()
    &&& (is_eoc(fat[c]) || (n > 0 && reaches_end(fat, fat[c] as int, (n - 1) as nat)))
}

/// The last cluster of the chain from `c`.
pub open spec fn chain_end(fat: Seq<u32>, c: int, n: nat) -> int
    decreases n,
{
    if is_eoc(fat[c]) || n == 0 { c } else { chain_end(fat, fat[c] as int, (n - 1) as nat) }
}

/// The table and the last cluster after linking free clusters, from
/// `cand` on, after `current`: each free cluster found is linked from the
/// current one and becomes current; the search stops at the end of the
/// table or once `n` clusters are linked (counting `count` linked before),
/// and the current cluster then ends the chain.
pub open spec fn linked(fat: Seq<u32>, current: int, cand: int, count: nat, n: nat) -> (Seq<u32>, int)
    decreases fat.len() - cand,
{
    if cand >= fat.len() || cand < 0 || current < 0 || current >= fat.len() {
        (fat.update(current, END_OF_CLUSTER_CHAIN as u32), current)
    } else if fat[cand] != 0 {
        linked(fat, current, cand + 1, count, n)
    } else if count + 1 == n {
        (fat.update(current, cand as u32).update(cand, END_OF_CLUSTER_CHAIN as u32), cand)
    } else {
        linked(fat.update(current, cand as u32), cand, cand + 1, count + 1, n)
    }
}

/// Adds `n` free clusters (all free ones when `n` is 0) to the end of the
/// chain that `eoc_cluster` belongs to, in the order they lie in the table,
/// and returns the new last cluster.
pub fn extend_cluster(fat: &mut Vec<u32>, eoc_cluster: u64, n: usize) -> (r: u64)
    requires
        old(fat)@.len() <= 0x1_0000_0000,
        reaches_end(old(fat)@, eoc_cluster as int, old(fat)@.len()),
    ensures
        ({
            let res = linked(old(fat)@, chain_end(old(fat)@, eoc_cluster as int, old(fat)@.len()), 2, 0, n as nat);
            final(fat)@ == res.0 && r == res.1
        }),
        final(fat)@.len() == old(fat)@.len(),
{
    let len = fat.len();
    let mut eoc: usize = eoc_cluster as usize;
    let ghost mut fuel: nat = fat@.len();
    while !is_end_of_cluster_chain(fat[eoc])
        invariant
            fat@ == old(fat)@,
            len == fat@.len(),
            reaches_end(fat@, eoc as int, fuel),
            chain_end(fat@, eoc_cluster as int, fat@.len()) == chain_end(fat@, eoc as int, fuel),
        decreases fuel,
    {
        eoc = fat[eoc] as usize;
        proof { fuel = (fuel - 1) as nat; }
    }
    let mut num_allocated: usize = 0;
    let mut current: usize = eoc;
    let mut candidate: usize = 2;
    let ghost target = linked(old(fat)@, eoc as int, 2, 0, n as nat);
    while candidate < len
        invariant
            len == fat@.len(),
            len == old(fat)@.len(),
            len <= 0x1_0000_0000,
            current < len,
            2 <= candidate,
            num_allocated <= candidate,
            num_allocated < n || n == 0,
            linked(fat@, current as int, candidate as int, num_allocated as nat, n as nat) == target,
            target == linked(old(fat)@, chain_end(old(fat)@, eoc_cluster as int, old(fat)@.len()), 2, 0, n as nat),
        decreases len - candidate,
    {
        if fat[candidate] != 0 {
            candidate = candidate + 1;
            continue;
        }
        fat.set(current, candidate as u32);
        current = candidate;
        num_allocated = num_allocated + 1;
        if num_allocated == n {
            fat.set(current, END_OF_CLUSTER_CHAIN as u32);
            return current as u64;
        }
        candidate = candidate + 1;
    }
    fat.set(current, END_OF_CLUSTER_CHAIN as u32);
    current as u64
}

/// The first free cluster from 2 on, or -1.
pub open spec fn first_free(fat: Seq<u32>) -> int {
    if exists|i: int| 2 <= i < fat.len() && fat[i] == 0 {
        choose|i: int| 2 <= i < fat.len() && fat[i] == 0 && forall|j: int| 2 <= j < i ==> fat[j] != 0
    } else {
        -1
    }
}

/// Marks the first free cluster from 2 on as a one-cluster chain and, for
/// `n` above 1, extends that chain by `n - 1` clusters. Returns the marked
/// cluster, the chain's first; fails with `NoEnoughMemory` when no cluster
/// is free.
pub fn allocate_cluster_chain(fat: &mut Vec<u32>, n: usize) -> (r: Result<u64, Code>)
    requires
        old(fat)@.len() <= 0x1_0000_0000,
        first_free(old(fat)@) >= 0 && n > 1 ==> reaches_end(
            old(fat)@.update(first_free(old(fat)@), END_OF_CLUSTER_CHAIN as u32),
            first_free(old(fat)@),
            old(fat)@.len(),
        ),
    ensures
        r is Err <==> first_free(old(fat)@) < 0,
        final(fat)@.len() == old(fat)@.len(),
        r matches Err(c) ==> c == Code::NoEnoughMemory && final(fat)@ == old(fat)@,
        r matches Ok(first) ==> {
            let f = first_free(old(fat)@);
            let marked = old(fat)@.update(f, END_OF_CLUSTER_CHAIN as u32);
            &&& first == f
            &&& n <= 1 ==> final(fat)@ == marked
            &&& n > 1 ==> final(fat)@ == linked(marked, chain_end(marked, f, marked.len()), 2, 0, (n - 1) as nat).0
        },
{
    let len = fat.len();
    let mut i: usize = 2;
    while i < len
        invariant
            len == fat@.len(),
            fat@ == old(fat)@,
            2 <= i,
            forall|j: int| 2 <= j < i ==> fat@[j] != 0,
            old(fat)@.len() <= 0x1_0000_0000,
            first_free(old(fat)@) >= 0 && n > 1 ==> reaches_end(
                old(fat)@.update(first_free(old(fat)@), END_OF_CLUSTER_CHAIN as u32),
                first_free(old(fat)@),
                old(fat)@.len(),
            ),
        decreases len - i,
    {
        if fat[i] == 0 {
            proof {
                assert(2 <= i < fat@.len() && fat@[i as int] == 0 && forall|j: int| 2 <= j < i ==> fat@[j] != 0);
                assert(exists|k: int| 2 <= k < fat@.len() && fat@[k] == 0 && forall|j: int| 2 <= j < k ==> fat@[j] != 0);
                let f = first_free(fat@);
                assert(2 <= f < fat@.len() && fat@[f] == 0 && forall|j: int| 2 <= j < f ==> fat@[j] != 0);
                if f < i {
                    assert(fat@[f] != 0);
                } else if f > i {
                    assert(fat@[i as int] != 0);
                }
                assert(f == i);
            }
            fat.set(i, END_OF_CLUSTER_CHAIN as u32);
            let first = i as u64;
            if n > 1 {
                let _ = extend_cluster(fat, first, n - 1);
            }
            return Ok(first);
        }
        i = i + 1;
    }
    Err(Code::NoEnoughMemory)
}


/// The parameters at the start of a FAT32 volume (its first 90 bytes).
#[derive(Clone, Copy, Debug)]
pub struct BPB {
    pub jmp_bot: [u8; 3],
    pub oemname: [u8; 8],
    pub byts_per_sec: u16,
    pub sec_per_clus: u8,
    pub rsvd_sec_cnt: u16,
    pub num_fats: u8,
    pub root_ent_cnd: u16,
    pub tot_sec16: u16,
    pub media: u8,
    pub fat_sz16: u16,
    pub sec_per_trk: u16,
    pub num_heads: u16,
    pub hidd_sec: u32,
    pub tot_sec32: u32,
    pub fat_sz32: u32,
    pub ext_flags: u16,
    pub fsver: u16,
    pub root_clus: u32,
    pub fsinfo: u16,
    pub bk_boot_sec: u16,
    pub reserved: [u8; 12],
    pub drv_num: u8,
    pub reserved1: u8,
    pub boot_sig: u8,
    pub vol_id: u32,
    pub vol_lab: [u8; 11],
    pub fil_sys_type: u64,
}

/// Length of the parameter block.
pub const BPB_LEN: usize = 90;

impl BPB {
    /// Reads the parameters from the start of a volume image; `None` when
    /// the image is shorter than the parameter block.
    pub fn from_bytes(b: &[u8]) -> (r: Option<Self>)
        ensures
            r is Some <==> b@.len() >= BPB_LEN,
            r matches Some(p) ==> {
                &&& p.jmp_bot@ == b@.subrange(0, 3)
                &&& p.oemname@ == b@.subrange(3, 11)
                &&& p.byts_per_sec == le16(b@, 11)
                &&& p.sec_per_clus == b@[13]
                &&& p.rsvd_sec_cnt == le16(b@, 14)
                &&& p.num_fats == b@[16]
                &&& p.root_ent_cnd == le16(b@, 17)
                &&& p.tot_sec16 == le16(b@, 19)
                &&& p.media == b@[21]
                &&& p.fat_sz16 == le16(b@, 22)
                &&& p.sec_per_trk == le16(b@, 24)
                &&& p.num_heads == le16(b@, 26)
                &&& p.hidd_sec == le32(b@, 28)
                &&& p.tot_sec32 == le32(b@, 32)
                &&& p.fat_sz32 == le32(b@, 36)
                &&& p.ext_flags == le16(b@, 40)
                &&& p.fsver == le16(b@, 42)
                &&& p.root_clus == le32(b@, 44)
                &&& p.fsinfo == le16(b@, 48)
                &&& p.bk_boot_sec == le16(b@, 50)
                &&& p.reserved@ == b@.subrange(52, 64)
                &&& p.drv_num == b@[64]
                &&& p.reserved1 == b@[65]
                &&& p.boot_sig == b@[66]
                &&& p.vol_id == le32(b@, 67)
                &&& p.vol_lab@ == b@.subrange(71, 82)
                &&& p.fil_sys_type == le64(b@, 82)
            },
    {
        if b.len() < BPB_LEN {
            return None;
        }
        let p = BPB {
            jmp_bot: [b[0], b[1], b[2]],
            oemname: [b[3], b[4], b[5], b[6], b[7], b[8], b[9], b[10]],
            byts_per_sec: read_u16(b, 11),
            sec_per_clus: b[13],
            rsvd_sec_cnt: read_u16(b, 14),
            num_fats: b[16],
            root_ent_cnd: read_u16(b, 17),
            tot_sec16: read_u16(b, 19),
            media: b[21],
            fat_sz16: read_u16(b, 22),
            sec_per_trk: read_u16(b, 24),
            num_heads: read_u16(b, 26),
            hidd_sec: read_u32(b, 28),
            tot_sec32: read_u32(b, 32),
            fat_sz32: read_u32(b, 36),
            ext_flags: read_u16(b, 40),
            fsver: read_u16(b, 42),
            root_clus: read_u32(b, 44),
            fsinfo: read_u16(b, 48),
            bk_boot_sec: read_u16(b, 50),
            reserved: [b[52], b[53], b[54], b[55], b[56], b[57], b[58], b[59], b[60], b[61], b[62], b[63]],
            drv_num: b[64],
            reserved1: b[65],
            boot_sig: b[66],
            vol_id: read_u32(b, 67),
            vol_lab: [b[71], b[72], b[73], b[74], b[75], b[76], b[77], b[78], b[79], b[80], b[81]],
            fil_sys_type: read_u64(b, 82),
        };
        assert(p.jmp_bot@ =~= b@.subrange(0, 3));
        assert(p.oemname@ =~= b@.subrange(3, 11));
        assert(p.reserved@ =~= b@.subrange(52, 64));
        assert(p.vol_lab@ =~= b@.subrange(71, 82));
        Some(p)
    }

    pub fn jmp_bot(&self) -> (r: [u8; 3])
        ensures
            r == self.jmp_bot,
    {
        self.jmp_bot
    }

    pub fn oemname(&self) -> (r: [u8; 8])
        ensures
            r == self.oemname,
    {
        self.oemname
    }

    pub fn byts_per_sec(&self) -> (r: u16)
        ensures
            r == self.byts_per_sec,
    {
        self.byts_per_sec
    }

    pub fn sec_per_clus(&self) -> (r: u8)
        ensures
            r == self.sec_per_clus,
    {
        self.sec_per_clus
    }

    pub fn rsvd_sec_cnt(&self) -> (r: u16)
        ensures
            r == self.rsvd_sec_cnt,
    {
        self.rsvd_sec_cnt
    }

    pub fn num_fats(&self) -> (r: u8)
        ensures
            r == self.num_fats,
    {
        self.num_fats
    }

    pub fn root_ent_cnd(&self) -> (r: u16)
        ensures
            r == self.root_ent_cnd,
    {
        self.root_ent_cnd
    }

    pub fn tot_sec16(&self) -> (r: u16)
        ensures
            r == self.tot_sec16,
    {
        self.tot_sec16
    }

    pub fn media(&self) -> (r: u8)
        ensures
            r == self.media,
    {
        self.media
    }

    pub fn fat_sz16(&self) -> (r: u16)
        ensures
            r == self.fat_sz16,
    {
        self.fat_sz16
    }

    pub fn sec_per_trk(&self) -> (r: u16)
        ensures
            r == self.sec_per_trk,
    {
        self.sec_per_trk
    }

    pub fn num_heads(&self) -> (r: u16)
        ensures
            r == self.num_heads,
    {
        self.num_heads
    }

    pub fn hidd_sec(&self) -> (r: u32)
        ensures
            r == self.hidd_sec,
    {
        self.hidd_sec
    }

    pub fn tot_sec32(&self) -> (r: u32)
        ensures
            r == self.tot_sec32,
    {
        self.tot_sec32
    }

    pub fn fat_sz32(&self) -> (r: u32)
        ensures
            r == self.fat_sz32,
    {
        self.fat_sz32
    }

    pub fn ext_flags(&self) -> (r: u16)
        ensures
            r == self.ext_flags,
    {
        self.ext_flags
    }

    pub fn fsver(&self) -> (r: u16)
        ensures
            r == self.fsver,
    {
        self.fsver
    }

    pub fn root_clus(&self) -> (r: u32)
        ensures
            r == self.root_clus,
    {
        self.root_clus
    }

    pub fn fsinfo(&self) -> (r: u16)
        ensures
            r == self.fsinfo,
    {
        self.fsinfo
    }

    pub fn bk_boot_sec(&self) -> (r: u16)
        ensures
            r == self.bk_boot_sec,
    {
        self.bk_boot_sec
    }

    pub fn reserved(&self) -> (r: [u8; 12])
        ensures
            r == self.reserved,
    {
        self.reserved
    }

    pub fn drv_num(&self) -> (r: u8)
        ensures
            r == self.drv_num,
    {
        self.drv_num
    }

    pub fn reserved1(&self) -> (r: u8)
        ensures
            r == self.reserved1,
    {
        self.reserved1
    }

    pub fn boot_sig(&self) -> (r: u8)
        ensures
            r == self.boot_sig,
    {
        self.boot_sig
    }

    pub fn vol_id(&self) -> (r: u32)
        ensures
            r == self.vol_id,
    {
        self.vol_id
    }

    pub fn vol_lab(&self) -> (r: [u8; 11])
        ensures
            r == self.vol_lab,
    {
        self.vol_lab
    }

    pub fn fil_sys_type(&self) -> (r: u64)
        ensures
            r == self.fil_sys_type,
    {
        self.fil_sys_type
    }

}


/// A product of two bounded naturals is bounded by the product of the
/// bounds.
proof fn lemma_mul_bound(a: int, b: int, ma: int, mb: int)
    requires
        0 <= a <= ma,
        0 <= b <= mb,
    ensures
        0 <= a * b <= ma * mb,
{
    assert(0 <= a * b <= ma * mb) by (nonlinear_arith)
        requires 0 <= a <= ma, 0 <= b <= mb;
}

/// A FAT32 volume in memory: its parameters, its allocation table (read
/// out of the image, where `new` found it) and its image.
pub struct FatVolume {
    bpb: BPB,
    fat: Vec<u32>,
    image: Vec<u8>,
}

/// What a volume holds: its parameters, its allocation table and its image.
pub ghost struct VolumeModel {
    pub bpb: BPB,
    pub fat: Seq<u32>,
    pub image: Seq<u8>,
}

impl View for FatVolume {
    type V = VolumeModel;

    closed spec fn view(&self) -> VolumeModel {
        VolumeModel { bpb: self.bpb, fat: self.fat@, image: self.image@ }
    }
}

/// The first `/` in `s` at or after `i`, or -1 when there is none.
pub open spec fn slash_from(s: Seq<u8>, i: int) -> int
    decreases s.len() - i,
{
    if i < 0 || i >= s.len() {
        -1
    } else if s[i] == 0x2f {
        i
    } else {
        slash_from(s, i + 1)
    }
}

pub proof fn lemma_slash_from(s: Seq<u8>, i: int)
    requires
        0 <= i,
    ensures
        slash_from(s, i) == -1 || (i <= slash_from(s, i) < s.len() && s[slash_from(s, i)] == 0x2f),
    decreases s.len() - i,
{
    if i < s.len() && s[i] != 0x2f {
        lemma_slash_from(s, i + 1);
    }
}

/// The index of the first `/` of `s`, if any.
fn find_slash(s: &[u8]) -> (r: Option<usize>)
    ensures
        match r {
            Some(i) => slash_from(s@, 0) == i,
            None => slash_from(s@, 0) == -1,
        },
{
    let mut i: usize = 0;
    while i < s.len()
        invariant
            i <= s@.len(),
            slash_from(s@, 0) == slash_from(s@, i as int),
        decreases s@.len() - i,
    {
        if s[i] == 0x2f {
            return Some(i);
        }
        i = i + 1;
    }
    None
}

/// `path` cut at its first `/`: what comes before it, what comes after it,
/// and whether there was one.
pub open spec fn split_path(path: Seq<u8>) -> (Seq<u8>, Seq<u8>, bool) {
    let k = slash_from(path, 0);
    if k >= 0 {
        (path.take(k), path.skip(k + 1), true)
    } else {
        (path, Seq::empty(), false)
    }
}

/// `image` with `data` written over it from `off`.
pub open spec fn overwrite(image: Seq<u8>, off: int, data: Seq<u8>) -> Seq<u8> {
    Seq::new(image.len(), |j: int| if off <= j < off + data.len() { data[j - off] } else { image[j] })
}

/// The table after `allocate_cluster_chain(fat, n)` succeeds: the first
/// free cluster ends a chain of its own, and for `n` above 1 that chain
/// gets `n - 1` more.
pub open spec fn allocated(fat: Seq<u32>, n: nat) -> Seq<u32> {
    let f = first_free(fat);
    let marked = fat.update(f, END_OF_CLUSTER_CHAIN as u32);
    if n <= 1 {
        marked
    } else {
        linked(marked, chain_end(marked, f, marked.len()), 2, 0, (n - 1) as nat).0
    }
}

/// The index of the first free cluster from 2 on.
fn first_free_index(fat: &Vec<u32>) -> (r: Option<usize>)
    ensures
        match r {
            Some(i) => first_free(fat@) == i && 2 <= i < fat@.len(),
            None => first_free(fat@) < 0,
        },
{
    let len = fat.len();
    let mut i: usize = 2;
    while i < len
        invariant
            len == fat@.len(),
            2 <= i,
            forall|j: int| 2 <= j < i ==> fat@[j] != 0,
        decreases len - i,
    {
        if fat[i] == 0 {
            proof {
                assert(exists|k: int| 2 <= k < fat@.len() && fat@[k] == 0 && forall|j: int| 2 <= j < k ==> fat@[j] != 0);
                let f = first_free(fat@);
                if f < i {
                    assert(fat@[f] != 0);
                } else if f > i {
                    assert(fat@[i as int] != 0);
                }
            }
            return Some(i);
        }
        i = i + 1;
    }
    None
}

/// Whether the chain from `c` reaches its end within the table, with
/// cluster `m` taken as ending a chain.
fn reaches_end_marked(fat: &Vec<u32>, c: u64, m: u64) -> (r: bool)
    requires
        m < fat@.len(),
    ensures
        r == reaches_end(fat@.update(m as int, END_OF_CLUSTER_CHAIN as u32), c as int, fat@.len()),
{
    let ghost marked = fat@.update(m as int, END_OF_CLUSTER_CHAIN as u32);
    let len = fat.len();
    let mut cur: u64 = c;
    let mut fuel: usize = len;
    loop
        invariant
            len == fat@.len(),
            m < len,
            marked == fat@.update(m as int, END_OF_CLUSTER_CHAIN as u32),
            reaches_end(marked, c as int, fat@.len()) == reaches_end(marked, cur as int, fuel as nat),
        decreases fuel,
    {
        if cur >= len as u64 {
            return false;
        }
        let v: u32 = if cur == m { END_OF_CLUSTER_CHAIN as u32 } else { fat[cur as usize] };
        assert(v == marked[cur as int]);
        if is_end_of_cluster_chain(v) {
            return true;
        }
        if fuel == 0 {
            return false;
        }
        cur = v as u64;
        fuel = fuel - 1;
    }
}

impl VolumeModel {
    /// Bytes per cluster.
    pub open spec fn bpc(self) -> int {
        self.bpb.byts_per_sec * self.bpb.sec_per_clus
    }

    /// Where the allocation table starts in the image.
    pub open spec fn fat_off(self) -> int {
        self.bpb.rsvd_sec_cnt * self.bpb.byts_per_sec
    }

    /// How many entries the allocation table has.
    pub open spec fn fat_entries(self) -> int {
        self.bpb.fat_sz32 * self.bpb.byts_per_sec / 4
    }

    /// Where the data of cluster `c` starts.
    pub open spec fn cluster_off(self, c: int) -> int {
        (self.bpb.rsvd_sec_cnt + self.bpb.num_fats * self.bpb.fat_sz32) * self.bpb.byts_per_sec
            + (c - 2) * self.bpc()
    }

    /// Whether `c` is a cluster with data.
    pub open spec fn valid_cluster(self, c: int) -> bool {
        2 <= c < self.fat_entries()
    }

    /// The cluster after `c`: its table entry, or `END_OF_CLUSTER_CHAIN`
    /// for an entry that ends a chain.
    pub open spec fn next_spec(self, c: int) -> int {
        let v = self.fat[c];
        if v >= 0x0fff_fff8 { END_OF_CLUSTER_CHAIN as int } else { v as int }
    }

    /// Directory entries per cluster.
    pub open spec fn epc(self) -> int {
        self.bpc() / 32
    }

    /// Where entry `i` of the directory cluster `c` starts.
    pub open spec fn entry_off(self, c: int, i: int) -> int {
        self.cluster_off(c) + 32 * i
    }

    /// Sectors and clusters are not empty, the table has one entry per
    /// cluster (at most 2^32) and the image holds the data of every cluster.
    pub open spec fn wf(self) -> bool {
        &&& self.bpb.byts_per_sec > 0
        &&& self.bpb.sec_per_clus > 0
        &&& self.bpc() >= 32
        &&& self.image.len() < 0x1_0000_0000_0000
        &&& self.fat.len() == self.fat_entries()
        &&& self.fat_entries() <= 0x1_0000_0000
        &&& self.fat_entries() >= 2 ==> self.cluster_off(self.fat_entries()) <= self.image.len()
    }

    /// The root directory's first cluster.
    pub open spec fn root(self) -> int {
        self.bpb.root_clus as int
    }

    /// Whether entry `i` of cluster `c` marks the end of its directory.
    pub open spec fn entry_ends(self, c: int, i: int) -> bool {
        self.image[self.entry_off(c, i)] == 0
    }

    /// Whether entry `i` of cluster `c` is named `elem` (see
    /// `DirectoryEntry::name_is_equal`).
    pub open spec fn entry_named(self, c: int, i: int, elem: Seq<u8>) -> bool {
        let o = self.entry_off(c, i);
        &&& base_part(elem).len() <= 8
        &&& ext_part(elem).len() <= 3
        &&& self.image.subrange(o, o + 11) == short_name(elem)
    }

    /// The attribute byte of entry `i` of cluster `c`.
    pub open spec fn entry_attr(self, c: int, i: int) -> int {
        self.image[self.entry_off(c, i) + 11] as int
    }

    /// The first cluster of entry `i` of cluster `c`.
    pub open spec fn entry_first_cluster(self, c: int, i: int) -> int {
        let o = self.entry_off(c, i);
        le16(self.image, o + 20) * 0x1_0000 + le16(self.image, o + 26)
    }

    /// The file size in entry `i` of cluster `c`.
    pub open spec fn entry_size(self, c: int, i: int) -> int {
        le32(self.image, self.entry_off(c, i) + 28)
    }

    /// The first entry of cluster `c`, from entry `i` on, that ends the
    /// directory or is named `elem`; `epc` when there is none.
    pub open spec fn stop_in(self, elem: Seq<u8>, c: int, i: int) -> int
        decreases self.epc() - i,
    {
        if i < 0 || i >= self.epc() {
            self.epc()
        } else if self.entry_ends(c, i) || self.entry_named(c, i, elem) {
            i
        } else {
            self.stop_in(elem, c, i + 1)
        }
    }

    /// How many clusters a walk along a chain visits at most.
    pub open spec fn fuel(self) -> nat {
        if self.fat_entries() >= 0 { self.fat_entries() as nat } else { 0 }
    }

    /// The entry named `elem` in the directory whose chain continues at
    /// cluster `c`, as (cluster, index); the walk ends at an entry that ends
    /// the directory, at the end of the chain, at a number that is no
    /// cluster, or after `fuel` clusters.
    pub open spec fn lookup(self, elem: Seq<u8>, c: int, fuel: nat) -> Option<(int, int)>
        decreases fuel,
    {
        if fuel == 0 || c == END_OF_CLUSTER_CHAIN || !self.valid_cluster(c) {
            None
        } else {
            let k = self.stop_in(elem, c, 0);
            if k < self.epc() {
                if self.entry_ends(c, k) {
                    None
                } else {
                    Some((c, k))
                }
            } else {
                self.lookup(elem, self.next_spec(c), (fuel - 1) as nat)
            }
        }
    }

    /// What `find_file` gives for `path` from directory cluster `dir`.
    pub open spec fn find_spec(self, path: Seq<u8>, dir: int) -> (Option<(int, int)>, bool)
        decreases path.len(),
    {
        let (rel, start) = if path.len() > 0 && path[0] == 0x2f {
            (path.drop_first(), self.root())
        } else if dir == 0 {
            (path, self.root())
        } else {
            (path, dir)
        };
        let (elem, next, post_slash) = split_path(rel);
        match self.lookup(elem, start, self.fuel()) {
            None => (None, post_slash),
            Some((c, i)) => {
                if self.entry_attr(c, i) == 0x10 && next.len() > 0 {
                    proof {
                        lemma_slash_from(rel, 0);
                    }
                    self.find_spec(next, self.entry_first_cluster(c, i))
                } else {
                    (Some((c, i)), post_slash)
                }
            },
        }
    }

    /// The bytes of the chain from cluster `c`, `remain` bytes in all, at
    /// most a cluster from each; the walk ends at cluster 0, at the end of
    /// the chain, at a number that is no cluster, or after `fuel` clusters.
    pub open spec fn load_spec(self, c: int, remain: int, fuel: nat) -> Seq<u8>
        decreases fuel,
    {
        if fuel == 0 || c == 0 || c == END_OF_CLUSTER_CHAIN || !self.valid_cluster(c) {
            Seq::empty()
        } else {
            let n = if self.bpc() < remain { self.bpc() } else { remain };
            let o = self.cluster_off(c);
            self.image.subrange(o, o + n) + self.load_spec(self.next_spec(c), remain - n, (fuel - 1) as nat)
        }
    }

    /// The first entry of cluster `c`, from entry `i` on, that is free (its
    /// name starts with 0 or 0xe5); `epc` when there is none.
    pub open spec fn free_in(self, c: int, i: int) -> int
        decreases self.epc() - i,
    {
        if i < 0 || i >= self.epc() {
            self.epc()
        } else if self.image[self.entry_off(c, i)] == 0 || self.image[self.entry_off(c, i)] == 0xe5 {
            i
        } else {
            self.free_in(c, i + 1)
        }
    }

    /// Where `allocate_entry` finds room along the chain from `c`:
    /// `Some((c, i))` for a free entry `i` of cluster `c`, `Some((c, -1))`
    /// when the chain ends at `c` with no free entry, `None` when the walk
    /// meets a number that is no cluster or takes more than `fuel` clusters.
    pub open spec fn free_slot(self, c: int, fuel: nat) -> Option<(int, int)>
        decreases fuel,
    {
        if fuel == 0 || !self.valid_cluster(c) {
            None
        } else {
            let k = self.free_in(c, 0);
            if k < self.epc() {
                Some((c, k))
            } else if self.next_spec(c) == END_OF_CLUSTER_CHAIN {
                Some((c, -1))
            } else {
                self.free_slot(self.next_spec(c), (fuel - 1) as nat)
            }
        }
    }

    /// No entry that the walk of `free_slot` from `c` passes over before it
    /// stops is named `elem`.
    pub open spec fn none_named_before(self, elem: Seq<u8>, c: int, fuel: nat) -> bool
        decreases fuel,
    {
        if fuel == 0 || !self.valid_cluster(c) {
            true
        } else {
            let k = self.free_in(c, 0);
            &&& forall|j: int| 0 <= j < k && j < self.epc() ==> !#[trigger] self.entry_named(c, j, elem)
            &&& (k >= self.epc() && self.next_spec(c) != END_OF_CLUSTER_CHAIN
                ==> self.none_named_before(elem, self.next_spec(c), (fuel - 1) as nat))
        }
    }

    /// The entry that `allocate_entry` gives from directory cluster `dir`,
    /// with the volume after it.
    pub open spec fn alloc_entry_spec(self, dir: int) -> (Option<(int, int)>, VolumeModel) {
        match self.free_slot(dir, self.fuel()) {
            None => (None, self),
            Some((c, k)) => {
                if k >= 0 {
                    (Some((c, k)), self)
                } else {
                    let (fat2, last) = linked(self.fat, c, 2, 0, 1);
                    let m1 = VolumeModel { fat: fat2, ..self };
                    (Some((last, 0)), VolumeModel {
                        image: overwrite(m1.image, m1.cluster_off(last), zeros(m1.bpc() / 8 * 8)),
                        ..m1
                    })
                }
            },
        }
    }

    /// What `create_file` gives for `path`, with the volume after it.
    pub open spec fn create_spec(self, path: Seq<u8>) -> (Result<(int, int), Code>, VolumeModel) {
        let k = last_of(path, 0x2f);
        if k >= 0 && k + 1 == path.len() {
            (Err(Code::IsDirectory), self)
        } else {
            let filename = if k >= 0 { path.skip(k + 1) } else { path };
            let parent = if k > 0 {
                match self.find_spec(path.take(k), 0).0 {
                    None => -1,
                    Some((c, i)) => self.entry_first_cluster(c, i),
                }
            } else {
                self.root()
            };
            if parent < 0 {
                (Err(Code::NoSuchEntry), self)
            } else {
                let (e, m) = self.alloc_entry_spec(parent);
                match e {
                    None => (Err(Code::InvalidFile), self),
                    Some((c, i)) => (Ok((c, i)), VolumeModel {
                        image: overwrite(m.image, m.entry_off(c, i), short_name(filename)),
                        ..m
                    }),
                }
            }
        }
    }
}

/// The cluster `j` links along the chain from `c`, following the table
/// (a value from 0x0fff_fff8 up ends the chain).
pub open spec fn chain_cluster(vol: VolumeModel, c: int, j: nat) -> int
    decreases j,
{
    if j == 0 {
        c
    } else {
        let v = vol.fat[c] as int;
        chain_cluster(vol, if v >= 0x0fff_fff8 { END_OF_CLUSTER_CHAIN as int } else { v }, (j - 1) as nat)
    }
}

/// Loading no bytes gives none.
proof fn lemma_load_nothing(vol: VolumeModel, c: int, fuel: nat)
    requires
        vol.wf(),
    ensures
        vol.load_spec(c, 0, fuel).len() == 0,
    decreases fuel,
{
    if !(fuel == 0 || c == 0 || c == END_OF_CLUSTER_CHAIN || !vol.valid_cluster(c)) {
        lemma_cluster_in_image(vol, c);
        lemma_load_nothing(vol, vol.next_spec(c), (fuel - 1) as nat);
    }
}

/// A file's bytes follow its chain: when the chain from `c` has a data
/// cluster for each `bpc` bytes of the `remain` asked for (within `fuel`
/// clusters), the load gives exactly `remain` bytes, byte `k` being byte
/// `k % bpc` of the `k / bpc`-th cluster of the chain.
pub proof fn lemma_load_follows_chain(vol: VolumeModel, c: int, remain: int, fuel: nat)
    requires
        vol.wf(),
        remain >= 0,
        forall|j: nat| j * vol.bpc() < remain ==> vol.valid_cluster(#[trigger] chain_cluster(vol, c, j))
            && chain_cluster(vol, c, j) != END_OF_CLUSTER_CHAIN && j < fuel,
    ensures
        vol.load_spec(c, remain, fuel).len() == remain,
        forall|k: int| 0 <= k < remain ==> #[trigger] vol.load_spec(c, remain, fuel)[k]
            == vol.image[vol.cluster_off(chain_cluster(vol, c, (k / vol.bpc()) as nat)) + k % vol.bpc()],
    decreases fuel,
{
    let b = vol.bpc();
    if remain == 0 {
        lemma_load_nothing(vol, c, fuel);
    } else {
        assert(0nat * b < remain);
        assert(vol.valid_cluster(chain_cluster(vol, c, 0)));
        assert(chain_cluster(vol, c, 0) == c);
        lemma_cluster_in_image(vol, c);
        let n = if b < remain { b } else { remain };
        let o = vol.cluster_off(c);
        let next = vol.next_spec(c);
        assert forall|j: nat| #[trigger] chain_cluster(vol, c, j + 1) == chain_cluster(vol, next, j) by {}
        assert forall|j: nat| j * b < remain - n implies vol.valid_cluster(#[trigger] chain_cluster(vol, next, j))
            && chain_cluster(vol, next, j) != END_OF_CLUSTER_CHAIN && j < (fuel - 1) as nat by {
            assert((j + 1) * b == j * b + b) by (nonlinear_arith);
            assert(chain_cluster(vol, c, (j + 1) as nat) == chain_cluster(vol, next, j));
        }
        lemma_load_follows_chain(vol, next, remain - n, (fuel - 1) as nat);
        let rest = vol.load_spec(next, remain - n, (fuel - 1) as nat);
        let all = vol.load_spec(c, remain, fuel);
        assert(all == vol.image.subrange(o, o + n) + rest);
        assert forall|k: int| 0 <= k < remain implies #[trigger] all[k]
            == vol.image[vol.cluster_off(chain_cluster(vol, c, (k / b) as nat)) + k % b] by {
            if k < n {
                vstd::arithmetic::div_mod::lemma_fundamental_div_mod_converse(k, b, 0, k);
                assert(all[k] == vol.image[o + k]);
            } else {
                let k2 = k - b;
                vstd::arithmetic::div_mod::lemma_fundamental_div_mod(k2, b);
                let q = k2 / b;
                let r = k2 % b;
                assert(k == (q + 1) * b + r) by (nonlinear_arith) requires k2 == b * q + r, k == k2 + b;
                vstd::arithmetic::div_mod::lemma_fundamental_div_mod_converse(k, b, q + 1, r);
                assert(q >= 0) by (nonlinear_arith) requires k2 >= 0, b > 0, q == k2 / b;
                assert(all[k] == rest[k2]);
                assert(chain_cluster(vol, c, (q + 1) as nat) == chain_cluster(vol, next, q as nat));
            }
        }
    }
}

/// The data of every cluster lies in the image.
pub proof fn lemma_cluster_in_image(vol: VolumeModel, c: int)
    requires
        vol.wf(),
        vol.valid_cluster(c),
    ensures
        0 <= vol.cluster_off(c),
        vol.cluster_off(c) + vol.bpc() <= vol.image.len(),
{
    let fe = vol.fat_entries();
    let bpc = vol.bpc();
    assert(bpc >= 0) by (nonlinear_arith)
        requires bpc == vol.bpb.byts_per_sec * vol.bpb.sec_per_clus;
    assert((c - 2) * bpc + bpc <= (fe - 2) * bpc) by (nonlinear_arith)
        requires c + 1 <= fe, c >= 2, bpc >= 0;
    assert(0 <= (c - 2) * bpc) by (nonlinear_arith)
        requires c >= 2, bpc >= 0;
    assert(0 <= (vol.bpb.rsvd_sec_cnt + vol.bpb.num_fats * vol.bpb.fat_sz32) * vol.bpb.byts_per_sec) by (nonlinear_arith);
}

/// The data of two different clusters do not overlap.
pub proof fn lemma_clusters_apart(vol: VolumeModel, a: int, b: int)
    requires
        vol.wf(),
        vol.valid_cluster(a),
        vol.valid_cluster(b),
        a < b,
    ensures
        vol.cluster_off(a) + vol.bpc() <= vol.cluster_off(b),
{
    let bpc = vol.bpc();
    assert(bpc >= 0);
    assert((a - 2) * bpc + bpc <= (b - 2) * bpc) by (nonlinear_arith)
        requires a + 1 <= b, bpc >= 0;
}

/// `n` zero bytes.
pub open spec fn zeros(n: int) -> Seq<u8> {
    Seq::new(n as nat, |j: int| 0u8)
}

/// The last cluster that `linked` gives lies in the table, from 2 on, when
/// the current cluster does.
pub proof fn lemma_linked_last(fat: Seq<u32>, current: int, cand: int, count: nat, n: nat)
    requires
        2 <= current < fat.len(),
        2 <= cand,
    ensures
        2 <= linked(fat, current, cand, count, n).1 < fat.len(),
        linked(fat, current, cand, count, n).0.len() == fat.len(),
    decreases fat.len() - cand,
{
    if cand >= fat.len() {
    } else if fat[cand] != 0 {
        lemma_linked_last(fat, current, cand + 1, count, n);
    } else if count + 1 == n {
    } else {
        lemma_linked_last(fat.update(current, cand as u32), cand, cand + 1, count + 1, n);
    }
}

/// Whether `image` holds a volume that `FatVolume::new` takes: its
/// parameters are there, sectors are not empty, a cluster holds at least
/// one directory entry, the image is
/// under 2^48 bytes, its allocation table fits in it and has at most 2^32
/// entries, and the data of every cluster the table has fits in it.
pub open spec fn image_ok(image: Seq<u8>) -> bool {
    let bps = le16(image, 11);
    let spc = image[13] as int;
    let rsvd = le16(image, 14);
    let nf = image[16] as int;
    let fsz = le32(image, 36);
    let fe = fsz * bps / 4;
    &&& image.len() >= BPB_LEN
    &&& bps > 0
    &&& spc > 0
    &&& bps * spc >= 32
    &&& image.len() < 0x1_0000_0000_0000
    &&& rsvd * bps + 4 * fe <= image.len()
    &&& fe <= 0x1_0000_0000
    &&& fe >= 2 ==> (rsvd + nf * fsz) * bps + (fe - 2) * (bps * spc) <= image.len()
}

impl FatVolume {
    /// The volume in `image`, with its table read out of it; `None` unless
    /// `image_ok(image@)`.
    pub fn new(image: Vec<u8>) -> (r: Option<Self>)
        ensures
            r is Some <==> image_ok(image@),
            r matches Some(v) ==> {
                &&& v@.wf()
                &&& v@.image == image@
                &&& v@.bpb.byts_per_sec == le16(image@, 11)
                &&& v@.bpb.sec_per_clus == image@[13]
                &&& v@.bpb.rsvd_sec_cnt == le16(image@, 14)
                &&& v@.bpb.num_fats == image@[16]
                &&& v@.bpb.fat_sz32 == le32(image@, 36)
                &&& v@.bpb.root_clus == le32(image@, 44)
                &&& forall|k: int| 0 <= k < v@.fat.len() ==> #[trigger] v@.fat[k] == le32(image@, v@.fat_off() + 4 * k)
            },
    {
        let bpb = match BPB::from_bytes(image.as_slice()) {
            Some(b) => b,
            None => return None,
        };
        let len = image.len() as u64;
        let bps = bpb.byts_per_sec as u64;
        let spc = bpb.sec_per_clus as u64;
        proof {
            lemma_mul_bound(bps as int, spc as int, 0xffff, 0xff);
        }
        if bps == 0 || spc == 0 || bps * spc < 32 || len >= 0x1_0000_0000_0000 {
            return None;
        }
        proof {
            lemma_mul_bound(bpb.rsvd_sec_cnt as int, bps as int, 0xffff, 0xffff);
            lemma_mul_bound(bpb.fat_sz32 as int, bps as int, 0xffff_ffff, 0xffff);
            lemma_mul_bound(bpb.num_fats as int, bpb.fat_sz32 as int, 0xff, 0xffff_ffff);
            lemma_mul_bound(bps as int, spc as int, 0xffff, 0xff);
            lemma_mul_bound(bpb.rsvd_sec_cnt + bpb.num_fats * bpb.fat_sz32, bps as int, 0xffff + 0xff * 0xffff_ffffint, 0xffff);
        }
        let fat_off = bpb.rsvd_sec_cnt as u64 * bps;
        let fe = bpb.fat_sz32 as u64 * bps / 4;
        if fat_off + 4 * fe > len || fe > 0x1_0000_0000 {
            return None;
        }
        if fe >= 2 {
            let data_off = (bpb.rsvd_sec_cnt as u64 + bpb.num_fats as u64 * bpb.fat_sz32 as u64) * bps;
            let bpc = bps * spc;
            proof {
                lemma_mul_bound((fe - 2) as int, bpc as int, 0x1_0000_0000int, 0xffff * 0xffint);
            }
            if data_off + (fe - 2) * bpc > len {
                return None;
            }
        }
        let mut fat: Vec<u32> = Vec::new();
        let mut k: u64 = 0;
        while k < fe
            invariant
                k <= fe,
                fat_off + 4 * fe <= len,
                len == image@.len(),
                fat@.len() == k,
                forall|j: int| 0 <= j < k ==> #[trigger] fat@[j] == le32(image@, fat_off + 4 * j),
            decreases fe - k,
        {
            let ilen = image.len();
            assert(fat_off + 4 * k + 4 <= ilen);
            let w = read_u32(image.as_slice(), (fat_off + 4 * k) as usize);
            fat.push(w);
            assert(fat@[k as int] == le32(image@, fat_off + 4 * k));
            k = k + 1;
        }
        Some(FatVolume { bpb, fat, image })
    }

    /// The volume's parameters.
    pub fn bpb(&self) -> (r: &BPB)
        ensures
            *r == self@.bpb,
    {
        &self.bpb
    }

    /// The volume image.
    pub fn image(&self) -> (r: &Vec<u8>)
        ensures
            r@ == self@.image,
    {
        &self.image
    }

    /// Bytes per cluster.
    pub fn bytes_per_cluster(&self) -> (r: u64)
        ensures
            r == self@.bpc(),
            r <= 0xffff * 0xff,
    {
        proof { lemma_mul_bound(self.bpb.byts_per_sec as int, self.bpb.sec_per_clus as int, 0xffff, 0xff); }
        self.bpb.byts_per_sec as u64 * self.bpb.sec_per_clus as u64
    }

    /// The cluster after `cluster` (see `next_spec`).
    pub fn next_cluster(&self, cluster: u64) -> (r: u64)
        requires
            self@.wf(),
            self@.valid_cluster(cluster as int),
        ensures
            r == self@.next_spec(cluster as int),
    {
        let v = self.fat[cluster as usize];
        if v >= 0x0fff_fff8 {
            END_OF_CLUSTER_CHAIN
        } else {
            v as u64
        }
    }

    /// The volume's allocation table.
    pub fn fat(&self) -> (r: &Vec<u32>)
        ensures
            r@ == self@.fat,
    {
        &self.fat
    }

    /// Where the data of `cluster` starts in the image.
    pub fn cluster_offset(&self, cluster: u64) -> (r: usize)
        requires
            self@.wf(),
            self@.valid_cluster(cluster as int),
        ensures
            r == self@.cluster_off(cluster as int),
            r + self@.bpc() <= self@.image.len(),
    {
        proof {
            lemma_mul_bound(self.bpb.byts_per_sec as int, self.bpb.sec_per_clus as int, 0xffff, 0xff);
            lemma_mul_bound(self.bpb.num_fats as int, self.bpb.fat_sz32 as int, 0xff, 0xffff_ffff);
            lemma_mul_bound(self.bpb.rsvd_sec_cnt + self.bpb.num_fats * self.bpb.fat_sz32, self.bpb.byts_per_sec as int, 0xffff + 0xff * 0xffff_ffffint, 0xffff);
        }
        let bps = self.bpb.byts_per_sec as u64;
        let bpc = bps * self.bpb.sec_per_clus as u64;
        proof {
            let fe = self@.fat_entries();
            assert((cluster - 2) * bpc + bpc <= (fe - 2) * bpc) by (nonlinear_arith)
                requires cluster + 1 <= fe, cluster >= 2, bpc >= 0;
            assert(self@.cluster_off(cluster as int) + bpc <= self@.cluster_off(fe));
            lemma_mul_bound((cluster - 2) as int, bpc as int, fe - 2, bpc as int);
        }
        let data_off = (self.bpb.rsvd_sec_cnt as u64 + self.bpb.num_fats as u64 * self.bpb.fat_sz32 as u64) * bps;
        let off = data_off + (cluster - 2) * bpc;
        assert(off == self@.cluster_off(cluster as int));
        let len = self.image.len();
        assert(off + bpc <= len);
        off as usize
    }

    /// Where entry `i` of the directory cluster `cluster` starts.
    fn entry_offset(&self, cluster: u64, i: usize) -> (r: usize)
        requires
            self@.wf(),
            self@.valid_cluster(cluster as int),
            i < self@.epc(),
        ensures
            r == self@.entry_off(cluster as int, i as int),
            r + 32 <= self@.image.len(),
    {
        let off = self.cluster_offset(cluster);
        proof {
            assert(32 * i + 32 <= self@.bpc()) by (nonlinear_arith)
                requires i < self@.bpc() / 32, self@.bpc() >= 0;
        }
        let len = self.image.len();
        off + 32 * i
    }

    /// Reads entry `i` of the directory cluster `cluster`.
    pub fn entry_at(&self, cluster: u64, i: usize) -> (r: DirectoryEntry)
        requires
            self@.wf(),
            self@.valid_cluster(cluster as int),
            i < self@.epc(),
        ensures
            r.name@ == self@.image.subrange(self@.entry_off(cluster as int, i as int), self@.entry_off(cluster as int, i as int) + 11),
            r.attr == self@.image[self@.entry_off(cluster as int, i as int) + 11],
            r.fst_clus_hl == le16(self@.image, self@.entry_off(cluster as int, i as int) + 20),
            r.fst_clus_lo == le16(self@.image, self@.entry_off(cluster as int, i as int) + 26),
            r.file_size == le32(self@.image, self@.entry_off(cluster as int, i as int) + 28),
            self@.entry_off(cluster as int, i as int) + 32 <= self@.image.len(),
    {
        let off = self.cluster_offset(cluster);
        proof {
            assert(32 * i + 32 <= self@.bpc()) by (nonlinear_arith)
                requires i < self@.bpc() / 32, self@.bpc() >= 0;
        }
        let len = self.image.len();
        assert(off + 32 * i + 32 <= len);
        let b = vstd::slice::slice_subrange(self.image.as_slice(), off + 32 * i, off + 32 * i + 32);
        let e = DirectoryEntry::from_bytes(b);
        proof {
            let o = self@.entry_off(cluster as int, i as int);
            assert(b@ == self.image@.subrange(o, o + 32));
            assert(e.name@ =~= self.image@.subrange(o, o + 11));
        }
        e
    }

    /// Looks `elem` up in the directory whose chain starts at `start`.
    fn lookup_exec(&self, elem: &[u8], start: u64) -> (r: Option<(u64, usize)>)
        requires
            self@.wf(),
        ensures
            match r {
                Some((c, i)) => self@.lookup(elem@, start as int, self@.fuel()) == Some((c as int, i as int))
                    && self@.valid_cluster(c as int) && i < self@.epc(),
                None => self@.lookup(elem@, start as int, self@.fuel()) is None,
            },
    {
        proof {
            lemma_mul_bound(self.bpb.fat_sz32 as int, self.bpb.byts_per_sec as int, 0xffff_ffff, 0xffff);
            lemma_mul_bound(self.bpb.byts_per_sec as int, self.bpb.sec_per_clus as int, 0xffff, 0xff);
        }
        let fe: u64 = self.bpb.fat_sz32 as u64 * self.bpb.byts_per_sec as u64 / 4;
        let epc: usize = (self.bytes_per_cluster() / 32) as usize;
        let mut c: u64 = start;
        let mut fuel: u64 = fe;
        loop
            invariant
                self@.wf(),
                fe == self@.fat_entries(),
                epc == self@.epc(),
                self@.lookup(elem@, start as int, self@.fuel()) == self@.lookup(elem@, c as int, fuel as nat),
            decreases fuel,
        {
            if fuel == 0 || c == END_OF_CLUSTER_CHAIN || c < 2 || c >= fe {
                return None;
            }
            let mut i: usize = 0;
            while i < epc
                invariant
                    self@.wf(),
                    epc == self@.epc(),
                    self@.valid_cluster(c as int),
                    i <= epc,
                    self@.stop_in(elem@, c as int, 0) == self@.stop_in(elem@, c as int, i as int),
                    self@.lookup(elem@, start as int, self@.fuel()) == self@.lookup(elem@, c as int, fuel as nat),
                    fuel > 0,
                    c != END_OF_CLUSTER_CHAIN,
                decreases epc - i,
            {
                let e = self.entry_at(c, i);
                assert(e.name@[0] == self@.image[self@.entry_off(c as int, i as int)]);
                if e.name[0] == 0 {
                    return None;
                }
                if e.name_is_equal(elem) {
                    return Some((c, i));
                }
                i = i + 1;
            }
            c = self.next_cluster(c);
            fuel = fuel - 1;
        }
    }

    /// Looks `path` up: from the root directory when it starts with `/` or
    /// `directory_cluster` is 0, else from `directory_cluster`. Each element
    /// but the last names a subdirectory to go on in. Gives where the entry
    /// found stands, as (cluster, index), and whether a `/` followed the
    /// element last looked up.
    pub fn find_file(&self, path: &[u8], directory_cluster: u64) -> (r: (Option<(u64, usize)>, bool))
        requires
            self@.wf(),
        ensures
            r.1 == self@.find_spec(path@, directory_cluster as int).1,
            match r.0 {
                Some((c, i)) => self@.find_spec(path@, directory_cluster as int).0 == Some((c as int, i as int))
                    && self@.valid_cluster(c as int) && i < self@.epc(),
                None => self@.find_spec(path@, directory_cluster as int).0 is None,
            },
        decreases path@.len(),
    {
        let root = self.bpb.root_clus as u64;
        let (rel, start): (&[u8], u64) = if path.len() > 0 && path[0] == 0x2f {
            (vstd::slice::slice_subrange(path, 1, path.len()), root)
        } else if directory_cluster == 0 {
            (path, root)
        } else {
            (path, directory_cluster)
        };
        proof {
            if path@.len() > 0 && path@[0] == 0x2f {
                assert(rel@ =~= path@.drop_first());
            }
        }
        let (elem, next, post_slash): (&[u8], &[u8], bool) = match find_slash(rel) {
            Some(k) => {
                proof { lemma_slash_from(rel@, 0); }
                let e = vstd::slice::slice_subrange(rel, 0, k);
                let n = vstd::slice::slice_subrange(rel, k + 1, rel.len());
                assert(e@ =~= rel@.take(k as int));
                assert(n@ =~= rel@.skip(k + 1));
                (e, n, true)
            },
            None => {
                let n: &[u8] = &[];
                assert(n@ =~= Seq::<u8>::empty());
                (rel, n, false)
            },
        };
        match self.lookup_exec(elem, start) {
            None => (None, post_slash),
            Some((c, i)) => {
                let e = self.entry_at(c, i);
                if e.attr == 0x10 && next.len() > 0 {
                    proof { lemma_slash_from(rel@, 0); }
                    self.find_file(next, e.first_cluster() as u64)
                } else {
                    (Some((c, i)), post_slash)
                }
            },
        }
    }

    /// The bytes of the file of `entry`: its chain from the entry's first
    /// cluster, `file_size` bytes in all (see `load_spec`).
    pub fn load_file(&self, entry: &DirectoryEntry) -> (r: Vec<u8>)
        requires
            self@.wf(),
        ensures
            r@ == self@.load_spec(entry.fst_clus_hl * 0x1_0000 + entry.fst_clus_lo, entry.file_size as int, self@.fuel()),
            ({
                let first = entry.fst_clus_hl * 0x1_0000 + entry.fst_clus_lo;
                let b = self@.bpc();
                (forall|j: nat| j * b < entry.file_size ==> self@.valid_cluster(#[trigger] chain_cluster(self@, first, j))
                    && chain_cluster(self@, first, j) != END_OF_CLUSTER_CHAIN && j < self@.fuel())
                ==> r@.len() == entry.file_size
                    && forall|k: int| 0 <= k < entry.file_size ==> #[trigger] r@[k]
                        == self@.image[self@.cluster_off(chain_cluster(self@, first, (k / b) as nat)) + k % b]
            }),
    {
        let mut cluster: u64 = entry.first_cluster() as u64;
        let mut remain: u64 = entry.file_size as u64;
        let bpc = self.bytes_per_cluster();
        proof {
            lemma_mul_bound(self.bpb.fat_sz32 as int, self.bpb.byts_per_sec as int, 0xffff_ffff, 0xffff);
        }
        let fe: u64 = self.bpb.fat_sz32 as u64 * self.bpb.byts_per_sec as u64 / 4;
        let mut fuel: u64 = fe;
        let mut buf: Vec<u8> = Vec::new();
        let ghost whole = self@.load_spec(cluster as int, remain as int, self@.fuel());
        while fuel > 0 && cluster != 0 && cluster != END_OF_CLUSTER_CHAIN && 2 <= cluster && cluster < fe
            invariant
                self@.wf(),
                fe == self@.fat_entries(),
                bpc == self@.bpc(),
                bpc <= 0xffff * 0xff,
                buf@ + self@.load_spec(cluster as int, remain as int, fuel as nat) == whole,
            decreases fuel,
        {
            let n: u64 = if bpc < remain { bpc } else { remain };
            let off = self.cluster_offset(cluster);
            let mut part = copy_bytes(self.image.as_slice(), off, n as usize);
            let ghost before = buf@;
            buf.append(&mut part);
            proof {
                let o = self@.cluster_off(cluster as int);
                assert(before + self@.load_spec(cluster as int, remain as int, fuel as nat)
                    == before + (self@.image.subrange(o, o + n) + self@.load_spec(self@.next_spec(cluster as int), remain - n, (fuel - 1) as nat)));
                assert(buf@ == before + self@.image.subrange(o, o + n));
                assert(before + (self@.image.subrange(o, o + n) + self@.load_spec(self@.next_spec(cluster as int), remain - n, (fuel - 1) as nat))
                    =~= buf@ + self@.load_spec(self@.next_spec(cluster as int), remain - n, (fuel - 1) as nat));
            }
            remain = remain - n;
            cluster = self.next_cluster(cluster);
            fuel = fuel - 1;
        }
        assert(buf@ =~= whole);
        proof {
            let first = entry.fst_clus_hl * 0x1_0000 + entry.fst_clus_lo;
            let b = self@.bpc();
            if forall|j: nat| j * b < entry.file_size ==> self@.valid_cluster(#[trigger] chain_cluster(self@, first, j))
                && chain_cluster(self@, first, j) != END_OF_CLUSTER_CHAIN && j < self@.fuel() {
                lemma_load_follows_chain(self@, first, entry.file_size as int, self@.fuel());
            }
        }
        buf
    }

    /// Writes `data` into the image from byte `off`.
    fn write_bytes(&mut self, off: usize, data: &[u8])
        requires
            off + data@.len() <= old(self)@.image.len(),
        ensures
            final(self)@ == (VolumeModel { image: overwrite(old(self)@.image, off as int, data@), ..old(self)@ }),
    {
        let n = data.len();
        let ilen = self.image.len();
        let mut k: usize = 0;
        while k < n
            invariant
                n == data@.len(),
                ilen == self.image@.len(),
                k <= n,
                off + n <= old(self)@.image.len(),
                self.bpb == old(self).bpb,
                self.fat@ == old(self).fat@,
                self.image@ == overwrite(old(self)@.image, off as int, data@.take(k as int)),
            decreases n - k,
        {
            self.image.set(off + k, data[k]);
            k = k + 1;
            assert(self.image@ =~= overwrite(old(self)@.image, off as int, data@.take(k as int)));
        }
        assert(data@.take(n as int) =~= data@);
    }

    /// Writes `data` into cluster `cluster` from byte `coff` of it.
    pub fn write_cluster(&mut self, cluster: u64, coff: usize, data: &[u8])
        requires
            old(self)@.wf(),
            old(self)@.valid_cluster(cluster as int),
            coff + data@.len() <= old(self)@.bpc(),
        ensures
            final(self)@ == (VolumeModel {
                image: overwrite(old(self)@.image, old(self)@.cluster_off(cluster as int) + coff, data@),
                ..old(self)@
            }),
            final(self)@.wf(),
    {
        let off = self.cluster_offset(cluster);
        let ilen = self.image.len();
        self.write_bytes(off + coff, data);
    }

    /// Sets the first cluster of entry `i` of cluster `cluster` to `clus`:
    /// the low half, then the high half.
    pub fn set_entry_first_cluster(&mut self, cluster: u64, i: usize, clus: u32)
        requires
            old(self)@.wf(),
            old(self)@.valid_cluster(cluster as int),
            i < old(self)@.epc(),
        ensures
            final(self)@ == (VolumeModel {
                image: put16(put16(old(self)@.image, old(self)@.entry_off(cluster as int, i as int) + 26, (clus % 0x1_0000) as int),
                    old(self)@.entry_off(cluster as int, i as int) + 20, (clus / 0x1_0000) as int),
                ..old(self)@
            }),
            final(self)@.wf(),
    {
        let o = self.entry_offset(cluster, i);
        let ilen = self.image.len();
        write_u16(&mut self.image, o + 26, (clus % 0x1_0000) as u16);
        write_u16(&mut self.image, o + 20, (clus / 0x1_0000) as u16);
    }

    /// Sets the file size of entry `i` of cluster `cluster` to `size`.
    pub fn set_entry_size(&mut self, cluster: u64, i: usize, size: u32)
        requires
            old(self)@.wf(),
            old(self)@.valid_cluster(cluster as int),
            i < old(self)@.epc(),
        ensures
            final(self)@ == (VolumeModel {
                image: put32(old(self)@.image, old(self)@.entry_off(cluster as int, i as int) + 28, size as int),
                ..old(self)@
            }),
            final(self)@.wf(),
    {
        let o = self.entry_offset(cluster, i);
        let ilen = self.image.len();
        write_u32(&mut self.image, o + 28, size);
    }

    /// Gives entry `i` of cluster `cluster` the name `name` (see
    /// `set_file_name`).
    pub fn set_entry_name(&mut self, cluster: u64, i: usize, name: &[u8])
        requires
            old(self)@.wf(),
            old(self)@.valid_cluster(cluster as int),
            i < old(self)@.epc(),
        ensures
            final(self)@ == (VolumeModel {
                image: overwrite(old(self)@.image, old(self)@.entry_off(cluster as int, i as int), short_name(name@)),
                ..old(self)@
            }),
            final(self)@.wf(),
    {
        let mut e = self.entry_at(cluster, i);
        set_file_name(&mut e, name);
        let o = self.entry_offset(cluster, i);
        let bytes = e.name;
        self.write_bytes(o, bytes.as_slice());
    }

    /// Adds clusters to the end of the chain of `cluster` (see
    /// `extend_cluster`).
    pub fn extend_chain(&mut self, cluster: u64, n: usize) -> (r: u64)
        requires
            old(self)@.wf(),
            reaches_end(old(self)@.fat, cluster as int, old(self)@.fat.len()),
        ensures
            ({
                let res = linked(old(self)@.fat, chain_end(old(self)@.fat, cluster as int, old(self)@.fat.len()), 2, 0, n as nat);
                &&& final(self)@ == (VolumeModel { fat: res.0, ..old(self)@ })
                &&& r == res.1
            }),
            final(self)@.wf(),
    {
        extend_cluster(&mut self.fat, cluster, n)
    }

    /// Allocates a chain for `n` clusters (see `allocate_cluster_chain`);
    /// fails with `NoEnoughMemory` when no cluster is free, and with
    /// `InvalidFile` when `n` is above 1 and the chain to extend does not
    /// reach its end within the table.
    pub fn allocate_chain(&mut self, n: usize) -> (r: Result<u64, Code>)
        requires
            old(self)@.wf(),
        ensures
            final(self)@.wf(),
            ({
                let fat = old(self)@.fat;
                let f = first_free(fat);
                match r {
                    Err(e) => final(self)@ == old(self)@ && (
                        (e == Code::NoEnoughMemory && f < 0)
                        || (e == Code::InvalidFile && f >= 0 && n > 1
                            && !reaches_end(fat.update(f, END_OF_CLUSTER_CHAIN as u32), f, fat.len()))),
                    Ok(first) => f >= 2 && first == f && f < fat.len()
                        && (n > 1 ==> reaches_end(fat.update(f, END_OF_CLUSTER_CHAIN as u32), f, fat.len()))
                        && final(self)@ == (VolumeModel { fat: allocated(fat, n as nat), ..old(self)@ }),
                }
            }),
    {
        let f = match first_free_index(&self.fat) {
            Some(f) => f,
            None => return Err(Code::NoEnoughMemory),
        };
        if n > 1 && !reaches_end_marked(&self.fat, f as u64, f as u64) {
            return Err(Code::InvalidFile);
        }
        allocate_cluster_chain(&mut self.fat, n)
    }

    /// Finds a free directory entry along the chain of `dir_cluster`; when
    /// the chain has none, links one more cluster to its end, clears it and
    /// gives its first entry. `None` when the walk meets a number that is
    /// no cluster or goes round.
    fn allocate_entry(&mut self, dir_cluster: u64) -> (r: Option<(u64, usize)>)
        requires
            old(self)@.wf(),
        ensures
            final(self)@.wf(),
            final(self)@ == old(self)@.alloc_entry_spec(dir_cluster as int).1,
            match r {
                None => old(self)@.alloc_entry_spec(dir_cluster as int).0 is None && final(self)@ == old(self)@,
                Some((c, i)) => old(self)@.alloc_entry_spec(dir_cluster as int).0 == Some((c as int, i as int)),
            },
            r matches Some((c, i)) ==> final(self)@.valid_cluster(c as int) && i < final(self)@.epc(),
    {
        proof {
            lemma_mul_bound(self.bpb.fat_sz32 as int, self.bpb.byts_per_sec as int, 0xffff_ffff, 0xffff);
        }
        let fe: u64 = self.bpb.fat_sz32 as u64 * self.bpb.byts_per_sec as u64 / 4;
        let bpc = self.bytes_per_cluster();
        let epc: usize = (bpc / 32) as usize;
        let mut c: u64 = dir_cluster;
        let mut fuel: u64 = fe;
        loop
            invariant
                self@.wf(),
                self@ == old(self)@,
                fe == self@.fat_entries(),
                epc == self@.epc(),
                bpc == self@.bpc(),
                self@.free_slot(dir_cluster as int, self@.fuel()) == self@.free_slot(c as int, fuel as nat),
            ensures
                self@.wf(),
                self@ == old(self)@,
                bpc == self@.bpc(),
                self@.valid_cluster(c as int),
                self@.next_spec(c as int) == END_OF_CLUSTER_CHAIN,
                self@.free_slot(dir_cluster as int, self@.fuel()) == Some((c as int, -1int)),
            decreases fuel,
        {
            if fuel == 0 || c < 2 || c >= fe {
                return None;
            }
            let mut i: usize = 0;
            while i < epc
                invariant
                    self@.wf(),
                    self@ == old(self)@,
                    epc == self@.epc(),
                    self@.valid_cluster(c as int),
                    i <= epc,
                    fuel > 0,
                    self@.free_in(c as int, 0) == self@.free_in(c as int, i as int),
                    self@.free_slot(dir_cluster as int, self@.fuel()) == self@.free_slot(c as int, fuel as nat),
                decreases epc - i,
            {
                let o = self.entry_offset(c, i);
                let b = self.image[o];
                if b == 0 || b == 0xe5 {
                    return Some((c, i));
                }
                i = i + 1;
            }
            let next = self.next_cluster(c);
            if next == END_OF_CLUSTER_CHAIN {
                break;
            }
            c = next;
            fuel = fuel - 1;
        }
        proof {
            lemma_linked_last(self@.fat, c as int, 2, 0, 1);
        }
        let last = self.extend_chain(c, 1);
        let n: usize = (bpc / 8 * 8) as usize;
        let mut z: Vec<u8> = Vec::new();
        while z.len() < n
            invariant
                z@ == zeros(z@.len() as int),
                z@.len() <= n,
            decreases n - z@.len(),
        {
            z.push(0);
            assert(z@ =~= zeros(z@.len() as int));
        }
        proof {
            assert(n <= self@.bpc()) by (nonlinear_arith)
                requires n == bpc / 8 * 8, bpc == self@.bpc(), bpc >= 0;
        }
        self.write_cluster(last, 0, z.as_slice());
        Some((last, 0))
    }

    /// Creates an entry for `path`: in the root directory, or in the
    /// directory that the part of `path` before its last `/` names; the
    /// entry is named after the part after it (see `create_spec`). Fails
    /// with `IsDirectory` when `path` ends with `/`, with `NoSuchEntry` when
    /// the directory is not found, and with `InvalidFile` when its chain
    /// meets a number that is no cluster or goes round.
    pub fn create_file(&mut self, path: &[u8]) -> (r: Result<(u64, usize), Code>)
        requires
            old(self)@.wf(),
        ensures
            final(self)@.wf(),
            final(self)@ == old(self)@.create_spec(path@).1,
            match r {
                Err(e) => old(self)@.create_spec(path@).0 == Err::<(int, int), Code>(e),
                Ok((c, i)) => old(self)@.create_spec(path@).0 == Ok::<(int, int), Code>((c as int, i as int)),
            },
            r matches Ok((c, i)) ==> final(self)@.valid_cluster(c as int) && i < final(self)@.epc(),
    {
        proof { lemma_last_of(path@, 0x2f); }
        let len = path.len();
        let mut parent: u64 = self.bpb.root_clus as u64;
        let filename: &[u8] = match find_last(path, 0x2f) {
            Some(k) => {
                if k + 1 == len {
                    return Err(Code::IsDirectory);
                }
                if k > 0 {
                    let pn = vstd::slice::slice_subrange(path, 0, k);
                    assert(pn@ =~= path@.take(k as int));
                    match self.find_file(pn, 0).0 {
                        None => return Err(Code::NoSuchEntry),
                        Some((c, i)) => {
                            let e = self.entry_at(c, i);
                            parent = e.first_cluster() as u64;
                        },
                    }
                }
                let f = vstd::slice::slice_subrange(path, k + 1, len);
                assert(f@ =~= path@.skip(k + 1));
                f
            },
            None => path,
        };
        let ghost k = last_of(path@, 0x2f);
        let ghost fname = if k >= 0 { path@.skip(k + 1) } else { path@ };
        assert(filename@ == fname);
        assert(parent as int == (if k > 0 {
                match old(self)@.find_spec(path@.take(k), 0).0 {
                    None => -1,
                    Some((c, i)) => old(self)@.entry_first_cluster(c, i),
                }
            } else {
                old(self)@.root()
            }));
        match self.allocate_entry(parent) {
            None => Err(Code::InvalidFile),
            Some((c, i)) => {
                self.set_entry_name(c, i, filename);
                Ok((c, i))
            },
        }
    }
}

/// `free_in` stops at the first free entry: the entries it passes over
/// are in use.
proof fn lemma_free_in(vol: VolumeModel, c: int, i: int)
    requires
        0 <= i,
    ensures
        i <= vol.free_in(c, i) <= vol.epc() || (i >= vol.epc() && vol.free_in(c, i) == vol.epc()),
        forall|j: int| i <= j < vol.free_in(c, i) && j < vol.epc() ==>
            vol.image[#[trigger] vol.entry_off(c, j)] != 0 && vol.image[vol.entry_off(c, j)] != 0xe5,
        vol.free_in(c, i) < vol.epc() ==> (vol.image[vol.entry_off(c, vol.free_in(c, i))] == 0
            || vol.image[vol.entry_off(c, vol.free_in(c, i))] == 0xe5),
    decreases vol.epc() - i,
{
    if i < vol.epc() && !(vol.image[vol.entry_off(c, i)] == 0 || vol.image[vol.entry_off(c, i)] == 0xe5) {
        lemma_free_in(vol, c, i + 1);
    }
}

/// Entry `j` of cluster `c` neither ends the directory nor is named
/// `elem`: a lookup of `elem` passes over it.
pub open spec fn passes(vol: VolumeModel, elem: Seq<u8>, c: int, j: int) -> bool {
    !vol.entry_ends(c, j) && !vol.entry_named(c, j, elem)
}

/// `stop_in` from `i` reaches `k` when the lookup passes over every entry
/// from `i` up to `k`, and entry `k` is named `elem`.
proof fn lemma_stop_in_reaches(vol: VolumeModel, elem: Seq<u8>, c: int, i: int, k: int)
    requires
        0 <= i <= k < vol.epc(),
        forall|j: int| i <= j < k ==> #[trigger] passes(vol, elem, c, j),
        vol.entry_named(c, k, elem),
    ensures
        vol.stop_in(elem, c, i) == k,
    decreases k - i,
{
    if i < k {
        assert(passes(vol, elem, c, i));
        lemma_stop_in_reaches(vol, elem, c, i + 1, k);
    }
}

/// `stop_in` from `i` finds nothing in a cluster when the lookup passes
/// over every entry from `i` on.
proof fn lemma_stop_in_none(vol: VolumeModel, elem: Seq<u8>, c: int, i: int)
    requires
        0 <= i,
        forall|j: int| i <= j < vol.epc() ==> #[trigger] passes(vol, elem, c, j),
    ensures
        vol.stop_in(elem, c, i) == vol.epc(),
    decreases vol.epc() - i,
{
    if i < vol.epc() {
        assert(passes(vol, elem, c, i));
        lemma_stop_in_none(vol, elem, c, i + 1);
    }
}

/// An entry's bytes lie in its cluster.
proof fn lemma_entry_in_cluster(vol: VolumeModel, c: int, i: int)
    requires
        vol.wf(),
        vol.valid_cluster(c),
        0 <= i < vol.epc(),
    ensures
        vol.cluster_off(c) <= vol.entry_off(c, i),
        vol.entry_off(c, i) + 32 <= vol.cluster_off(c) + vol.bpc(),
        vol.entry_off(c, i) + 32 <= vol.image.len(),
{
    lemma_cluster_in_image(vol, c);
    let bpc = vol.bpc();
    assert(32 * i + 32 <= bpc) by (nonlinear_arith)
        requires i < bpc / 32, bpc >= 0, i >= 0;
}

/// The entries outside the one written keep their bytes, and so whether
/// they end the directory or are named `elem`.
proof fn lemma_other_entry_kept(vol: VolumeModel, after: VolumeModel, name: Seq<u8>, c: int, k: int, c2: int, j: int, elem: Seq<u8>)
    requires
        vol.wf(),
        vol.valid_cluster(c),
        0 <= k < vol.epc(),
        vol.valid_cluster(c2),
        0 <= j < vol.epc(),
        c2 != c || j != k,
        short_name(name).len() == 11,
        after == (VolumeModel { image: overwrite(vol.image, vol.entry_off(c, k), short_name(name)), ..vol }),
    ensures
        after.entry_ends(c2, j) == vol.entry_ends(c2, j),
        after.entry_named(c2, j, elem) == vol.entry_named(c2, j, elem),
{
    lemma_entry_in_cluster(vol, c, k);
    lemma_entry_in_cluster(vol, c2, j);
    let o = vol.entry_off(c2, j);
    let w = vol.entry_off(c, k);
    if c2 < c {
        lemma_clusters_apart(vol, c2, c);
    } else if c < c2 {
        lemma_clusters_apart(vol, c, c2);
    }
    assert(o + 32 <= w || w + 32 <= o);
    assert(after.image.subrange(o, o + 11) =~= vol.image.subrange(o, o + 11));
}

/// Short names are 11 bytes.
proof fn lemma_short_name_len(s: Seq<u8>)
    ensures
        short_name(s).len() == 11,
{
}

/// The lookup along the chain from `cur` meets the entry that
/// `create_file` wrote, when the walk that found its place met no entry of
/// that name before.
proof fn lemma_lookup_after_put(vol: VolumeModel, after: VolumeModel, name: Seq<u8>, cur: int, fuel: nat, c: int, k: int)
    requires
        vol.wf(),
        vol.fat_entries() <= END_OF_CLUSTER_CHAIN,
        vol.free_slot(cur, fuel) == Some((c, k)),
        k >= 0,
        vol.none_named_before(name, cur, fuel),
        after == (VolumeModel { image: overwrite(vol.image, vol.entry_off(c, k), short_name(name)), ..vol }),
        after.entry_named(c, k, name),
        !after.entry_ends(c, k),
    ensures
        after.lookup(name, cur, fuel) == Some((c, k)),
    decreases fuel,
{
    lemma_short_name_len(name);
    lemma_free_in(vol, cur, 0);
    lemma_free_slot_valid(vol, cur, fuel);
    let kk = vol.free_in(cur, 0);
    if kk < vol.epc() {
        assert(cur == c && kk == k);
        assert forall|j: int| 0 <= j < k implies #[trigger] passes(after, name, c, j) by {
            lemma_other_entry_kept(vol, after, name, c, k, c, j, name);
            lemma_entry_in_cluster(vol, c, j);
            assert(vol.image[vol.entry_off(c, j)] != 0);
        }
        lemma_stop_in_reaches(after, name, c, 0, k);
    } else {
        assert forall|j: int| 0 <= j < after.epc() implies #[trigger] passes(after, name, cur, j) by {
            lemma_entry_in_cluster(vol, cur, j);
            assert(vol.image[vol.entry_off(cur, j)] != 0);
            lemma_other_entry_kept(vol, after, name, c, k, cur, j, name);
        }
        lemma_stop_in_none(after, name, cur, 0);
        lemma_lookup_after_put(vol, after, name, vol.next_spec(cur), (fuel - 1) as nat, c, k);
    }
}

/// What `create_file` gives back: a file created in the root directory,
/// in a free entry found along its chain, is what `find_file` then finds
/// by the same name, when no entry met before has that name.
pub proof fn lemma_create_then_find(vol: VolumeModel, name: Seq<u8>)
    requires
        vol.wf(),
        vol.fat_entries() <= END_OF_CLUSTER_CHAIN,
        last_of(name, 0x2f) < 0,
        base_part(name).len() <= 8,
        ext_part(name).len() <= 3,
        short_name(name)[0] != 0,
        vol.free_slot(vol.root(), vol.fuel()) matches Some((c, k)) && k >= 0,
        vol.none_named_before(name, vol.root(), vol.fuel()),
    ensures
        ({
            let (c, k) = vol.free_slot(vol.root(), vol.fuel())->Some_0;
            let created = vol.create_spec(name);
            &&& created.0 == Ok::<(int, int), Code>((c, k))
            &&& created.1.find_spec(name, 0) == (Some((c, k)), false)
        }),
{
    let (c, k) = vol.free_slot(vol.root(), vol.fuel())->Some_0;
    lemma_short_name_len(name);
    let after = VolumeModel { image: overwrite(vol.image, vol.entry_off(c, k), short_name(name)), ..vol };
    assert(vol.create_spec(name).1 == after);
    lemma_free_slot_valid(vol, vol.root(), vol.fuel());
    lemma_entry_in_cluster(vol, c, k);
    let o = vol.entry_off(c, k);
    assert(after.image.subrange(o, o + 11) =~= short_name(name));
    assert(after.entry_named(c, k, name));
    assert(after.image[o] == short_name(name)[0]);
    lemma_lookup_after_put(vol, after, name, vol.root(), vol.fuel(), c, k);
    lemma_no_slash(name);
    assert(name.len() == 0 || name[0] != 0x2f);
}

/// Where `free_slot` finds an entry lies in the volume.
proof fn lemma_free_slot_valid(vol: VolumeModel, cur: int, fuel: nat)
    requires
        vol.free_slot(cur, fuel) matches Some((c, k)) && k >= 0,
    ensures
        vol.free_slot(cur, fuel) matches Some((c, k)) && vol.valid_cluster(c) && 0 <= k < vol.epc()
            && (vol.image[vol.entry_off(c, k)] == 0 || vol.image[vol.entry_off(c, k)] == 0xe5),
    decreases fuel,
{
    lemma_free_in(vol, cur, 0);
    if fuel > 0 && vol.valid_cluster(cur) && vol.free_in(cur, 0) >= vol.epc() && vol.next_spec(cur) != END_OF_CLUSTER_CHAIN {
        lemma_free_slot_valid(vol, vol.next_spec(cur), (fuel - 1) as nat);
    }
}

/// A path without `/` is one element.
proof fn lemma_no_slash(s: Seq<u8>)
    requires
        last_of(s, 0x2f) < 0,
    ensures
        slash_from(s, 0) == -1,
        split_path(s) == (s, Seq::<u8>::empty(), false),
{
    lemma_last_of(s, 0x2f);
    lemma_slash_from(s, 0);
}

/// What a listing has gathered so far, followed by what the rest of the
/// walk gives: `None` when the rest meets an entry it cannot list.
pub open spec fn then_listing(done: Seq<u8>, rest: Option<Seq<u8>>) -> Option<Seq<u8>> {
    match rest {
        Some(t) => Some(done + t),
        None => None,
    }
}

impl VolumeModel {
    /// The 11 name bytes of entry `i` of cluster `c`.
    pub open spec fn entry_name(self, c: int, i: int) -> Seq<u8> {
        let o = self.entry_off(c, i);
        self.image.subrange(o, o + 11)
    }

    /// The line that lists entry `i` of cluster `c`: its name, then a `.`
    /// and its extension when it has one, then a newline.
    pub open spec fn entry_line(self, c: int, i: int) -> Seq<u8> {
        let name = self.entry_name(c, i);
        let base = trim_end(name.subrange(0, 8));
        let ext = trim_end(name.subrange(8, 11));
        if ext.len() > 0 {
            base + seq![0x2eu8] + ext + seq![0x0au8]
        } else {
            base + seq![0x0au8]
        }
    }

    /// Whether entry `i` of cluster `c` is left out of a listing: its name
    /// starts with 0x5e or it is part of a long name.
    pub open spec fn entry_skipped(self, c: int, i: int) -> bool {
        self.image[self.entry_off(c, i)] == 0x5e || self.entry_attr(c, i) == 0x0f
    }

    /// The lines of the entries of cluster `c` from entry `i` on, and
    /// whether an entry that ends the directory was met; the text is `None`
    /// when an entry whose name is all spaces comes first.
    pub open spec fn listing_in(self, c: int, i: int) -> (Option<Seq<u8>>, bool)
        decreases self.epc() - i,
    {
        if i < 0 || i >= self.epc() {
            (Some(Seq::empty()), false)
        } else if self.entry_ends(c, i) {
            (Some(Seq::empty()), true)
        } else if trim_end(self.entry_name(c, i).subrange(0, 8)).len() == 0 {
            (None, true)
        } else if self.entry_skipped(c, i) {
            self.listing_in(c, i + 1)
        } else {
            let (rest, ended) = self.listing_in(c, i + 1);
            (then_listing(self.entry_line(c, i), rest), ended)
        }
    }

    /// The listing of the directory whose chain continues at cluster `c`;
    /// the walk ends at an entry that ends the directory, at the end of the
    /// chain, at a number that is no cluster, or after `fuel` clusters.
    pub open spec fn listing(self, c: int, fuel: nat) -> Option<Seq<u8>>
        decreases fuel,
    {
        if fuel == 0 || c == END_OF_CLUSTER_CHAIN || !self.valid_cluster(c) {
            Some(Seq::empty())
        } else {
            let (t, ended) = self.listing_in(c, 0);
            if ended {
                t
            } else {
                match t {
                    Some(t) => then_listing(t, self.listing(self.next_spec(c), (fuel - 1) as nat)),
                    None => None,
                }
            }
        }
    }

    /// What a listing that has gathered `done` and is at entry `i` of
    /// cluster `c`, with `fuel` clusters left, ends with.
    pub open spec fn listing_after(self, done: Seq<u8>, c: int, i: int, fuel: nat) -> Option<Seq<u8>> {
        let (t, ended) = self.listing_in(c, i);
        match t {
            None => None,
            Some(t) => if ended {
                Some(done + t)
            } else {
                then_listing(done + t, self.listing(self.next_spec(c), (fuel - 1) as nat))
            },
        }
    }
}

/// Gathering text in two steps gives what gathering it at once gives.
proof fn lemma_then_listing_assoc(a: Seq<u8>, b: Seq<u8>, rest: Option<Seq<u8>>)
    ensures
        then_listing(a + b, rest) == then_listing(a, then_listing(b, rest)),
{
    if let Some(t) = rest {
        assert((a + b) + t =~= a + (b + t));
    }
}

impl FatVolume {
    /// The text that lists the directory whose chain starts at
    /// `dir_cluster`: a line for each entry up to the one that ends it, but
    /// for those that `entry_skipped` leaves out. `None` when an entry to
    /// list has a name of spaces only.
    pub fn list_entries(&self, dir_cluster: u64) -> (r: Option<Vec<u8>>)
        requires
            self@.wf(),
        ensures
            match r {
                Some(v) => self@.listing(dir_cluster as int, self@.fuel()) == Some(v@),
                None => self@.listing(dir_cluster as int, self@.fuel()) is None,
            },
    {
        proof {
            lemma_mul_bound(self.bpb.fat_sz32 as int, self.bpb.byts_per_sec as int, 0xffff_ffff, 0xffff);
            lemma_mul_bound(self.bpb.byts_per_sec as int, self.bpb.sec_per_clus as int, 0xffff, 0xff);
        }
        let fe: u64 = self.bpb.fat_sz32 as u64 * self.bpb.byts_per_sec as u64 / 4;
        let epc: usize = (self.bytes_per_cluster() / 32) as usize;
        let mut c: u64 = dir_cluster;
        let mut fuel: u64 = fe;
        let mut out: Vec<u8> = Vec::new();
        assert(out@ + Seq::<u8>::empty() =~= out@);
        loop
            invariant
                self@.wf(),
                fe == self@.fat_entries(),
                epc == self@.epc(),
                self@.listing(dir_cluster as int, self@.fuel()) == then_listing(out@, self@.listing(c as int, fuel as nat)),
            decreases fuel,
        {
            if fuel == 0 || c == END_OF_CLUSTER_CHAIN || c < 2 || c >= fe {
                assert(out@ + Seq::<u8>::empty() =~= out@);
                return Some(out);
            }
            proof {
                let (t, ended) = self@.listing_in(c as int, 0);
                if let Some(t) = t {
                    if !ended {
                        lemma_then_listing_assoc(out@, t, self@.listing(self@.next_spec(c as int), (fuel - 1) as nat));
                    }
                }
            }
            let mut i: usize = 0;
            while i < epc
                invariant
                    self@.wf(),
                    epc == self@.epc(),
                    self@.valid_cluster(c as int),
                    i <= epc,
                    fuel > 0,
                    c != END_OF_CLUSTER_CHAIN,
                    self@.listing(dir_cluster as int, self@.fuel()) == self@.listing_after(out@, c as int, i as int, fuel as nat),
                decreases epc - i,
            {
                let e = self.entry_at(c, i);
                assert(e.name@[0] == self@.image[self@.entry_off(c as int, i as int)]);
                if e.name[0] == 0 {
                    assert(out@ + Seq::<u8>::empty() =~= out@);
                    return Some(out);
                }
                let (base, ext) = read_name(&e);
                if base.len() == 0 {
                    return None;
                }
                if e.name[0] == 0x5e || e.attr == 0x0f {
                    i = i + 1;
                } else {
                    let ghost before = out@;
                    let ghost line = self@.entry_line(c as int, i as int);
                    let mut k: usize = 0;
                    while k < base.len()
                        invariant
                            k <= base@.len(),
                            out@ == before + base@.subrange(0, k as int),
                        decreases base@.len() - k,
                    {
                        out.push(base[k]);
                        k = k + 1;
                        assert(out@ =~= before + base@.subrange(0, k as int));
                    }
                    if ext.len() > 0 {
                        out.push(0x2e);
                        let mut k: usize = 0;
                        let ghost mid = out@;
                        while k < ext.len()
                            invariant
                                k <= ext@.len(),
                                out@ == mid + ext@.subrange(0, k as int),
                            decreases ext@.len() - k,
                        {
                            out.push(ext[k]);
                            k = k + 1;
                            assert(out@ =~= mid + ext@.subrange(0, k as int));
                        }
                    }
                    out.push(0x0a);
                    proof {
                        assert(base@.subrange(0, base@.len() as int) =~= base@);
                        assert(ext@.subrange(0, ext@.len() as int) =~= ext@);
                        assert(e.name@ == self@.entry_name(c as int, i as int));
                        assert(out@ =~= before + line);
                        let (rest, ended) = self@.listing_in(c as int, i + 1);
                        if let Some(t) = rest {
                            assert(before + (line + t) =~= out@ + t);
                            if !ended {
                                lemma_then_listing_assoc(out@, t, self@.listing(self@.next_spec(c as int), (fuel - 1) as nat));
                                lemma_then_listing_assoc(before, line + t, self@.listing(self@.next_spec(c as int), (fuel - 1) as nat));
                            }
                        }
                    }
                    i = i + 1;
                }
            }
            assert(out@ + Seq::<u8>::empty() =~= out@);
            c = self.next_cluster(c);
            fuel = fuel - 1;
        }
    }
}

} // verus!
