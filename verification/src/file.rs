//! Open files: descriptors of files on a FAT volume, and the flags that
//! open a file, as applications pass them.
use vstd::prelude::*;
use crate::bytes::{put16, put32};
use crate::error::Code;
use crate::fat::{lemma_clusters_apart, allocated, chain_end, first_free, lemma_cluster_in_image, linked, overwrite, reaches_end, FatVolume, VolumeModel, END_OF_CLUSTER_CHAIN};

verus! {

/// The bits that hold the access mode.
pub const ACCMODE: i32 = 3;
/// Open for reading only.
pub const RDONLY: i32 = 0;
/// Open for writing only.
pub const WRONLY: i32 = 1;
/// Open for reading and writing.
pub const RDWR: i32 = 2;
/// Create the file when it does not exist.
pub const CREAT: i32 = 0o100;

/// A set of open flags.
#[derive(Clone, Copy, Debug, PartialEq, Eq, Structural)]
pub struct FileFlags(pub i32);

impl FileFlags {
    pub fn new(value: i32) -> (r: Self)
        ensures
            r.0 == value,
    {
        FileFlags(value)
    }

    /// The flags set in either.
    pub fn bitor(self, rhs: Self) -> (r: Self)
        ensures
            r.0 == self.0 | rhs.0,
    {
        FileFlags(self.0 | rhs.0)
    }

    /// Sets the flags of `rhs` too.
    pub fn bitor_assign(&mut self, rhs: Self)
        ensures
            final(self).0 == old(self).0 | rhs.0,
    {
        self.0 = self.0 | rhs.0;
    }

    /// The flags set in both.
    pub fn bitand(self, rhs: Self) -> (r: Self)
        ensures
            r.0 == self.0 & rhs.0,
    {
        FileFlags(self.0 & rhs.0)
    }

    /// Keeps only the flags also set in `rhs`.
    pub fn bitand_assign(&mut self, rhs: Self)
        ensures
            final(self).0 == old(self).0 & rhs.0,
    {
        self.0 = self.0 & rhs.0;
    }

    /// The flags set in exactly one.
    pub fn bitxor(self, rhs: Self) -> (r: Self)
        ensures
            r.0 == self.0 ^ rhs.0,
    {
        FileFlags(self.0 ^ rhs.0)
    }

    /// Toggles the flags set in `rhs`.
    pub fn bitxor_assign(&mut self, rhs: Self)
        ensures
            final(self).0 == old(self).0 ^ rhs.0,
    {
        self.0 = self.0 ^ rhs.0;
    }

    /// Every flag flipped.
    pub fn not(self) -> (r: Self)
        ensures
            r.0 == !self.0,
    {
        FileFlags(!self.0)
    }

    /// The access mode: `RDONLY`, `WRONLY` or `RDWR`.
    pub fn access_mode(self) -> (r: i32)
        ensures
            r == self.0 & ACCMODE,
            0 <= r <= 3,
    {
        let v = self.0;
        let r = v & ACCMODE;
        assert(0 <= (v & 3i32) <= 3) by (bit_vector);
        r
    }

    /// Whether the file is to be created when missing.
    pub fn creates(self) -> (r: bool)
        ensures
            r == (self.0 & CREAT != 0),
    {
        self.0 & CREAT != 0
    }
}

impl From<FileFlags> for i32 {
    fn from(value: FileFlags) -> (r: i32) {
        value.0
    }
}

impl vstd::std_specs::convert::FromSpecImpl<FileFlags> for i32 {
    open spec fn obeys_from_spec() -> bool {
        true
    }

    open spec fn from_spec(v: FileFlags) -> i32 {
        v.0
    }
}

impl From<i32> for FileFlags {
    fn from(value: i32) -> (r: FileFlags) {
        FileFlags(value)
    }
}

impl vstd::std_specs::convert::FromSpecImpl<i32> for FileFlags {
    open spec fn obeys_from_spec() -> bool {
        true
    }

    open spec fn from_spec(v: i32) -> FileFlags {
        FileFlags(v)
    }
}

/// What a read of `left` bytes gives from cluster `c`, `off` bytes into it,
/// with the cluster and the offset after it. Each step takes the rest of
/// the current cluster from `off` on, or less at the end of the read; the
/// cluster changes to the next one when the offset reaches the end of the
/// cluster. The read stops early at a number that is no cluster (or at an
/// offset past the cluster's end).
pub open spec fn read_steps(vol: VolumeModel, c: int, off: int, left: int) -> (Seq<u8>, int, int)
    decreases left,
{
    if left <= 0 || off < 0 || off >= vol.bpc() || !vol.valid_cluster(c) {
        (Seq::empty(), c, off)
    } else {
        let n = if left < vol.bpc() - off { left } else { vol.bpc() - off };
        let o = vol.cluster_off(c) + off;
        let c2 = if off + n == vol.bpc() { vol.next_spec(c) } else { c };
        let off2 = if off + n == vol.bpc() { 0 } else { off + n };
        let rest = read_steps(vol, c2, off2, left - n);
        (vol.image.subrange(o, o + n) + rest.0, rest.1, rest.2)
    }
}

/// A read gives at most what it was asked for, and its offset grows by
/// at most as much.
pub proof fn lemma_read_steps(vol: VolumeModel, c: int, off: int, left: int)
    requires
        vol.wf(),
        0 <= off,
    ensures
        read_steps(vol, c, off, left).0.len() <= if left > 0 { left } else { 0 },
        0 <= read_steps(vol, c, off, left).2 <= off + read_steps(vol, c, off, left).0.len(),
        read_steps(vol, c, off, left).1 == c || read_steps(vol, c, off, left).1 == END_OF_CLUSTER_CHAIN
            || (read_steps(vol, c, off, left).1 >= 0 && read_steps(vol, c, off, left).1 < 0x0fff_fff8),
    decreases left,
{
    if left <= 0 || off < 0 || off >= vol.bpc() || !vol.valid_cluster(c) {
    } else {
        let n = if left < vol.bpc() - off { left } else { vol.bpc() - off };
        let c2 = if off + n == vol.bpc() { vol.next_spec(c) } else { c };
        let off2 = if off + n == vol.bpc() { 0 } else { off + n };
        lemma_cluster_in_image(vol, c);
        lemma_read_steps(vol, c2, off2, left - n);
    }
}

/// Reading `a` bytes and then `b` more from where the first read stopped
/// gives what one read of `a + b` bytes gives, and ends at the same place.
pub proof fn lemma_read_split(vol: VolumeModel, c: int, off: int, a: int, b: int)
    requires
        vol.wf(),
        0 <= a,
        0 <= b,
    ensures
        ({
            let first = read_steps(vol, c, off, a);
            let second = read_steps(vol, first.1, first.2, b);
            let whole = read_steps(vol, c, off, a + b);
            first.0.len() == a ==> (whole.0 == first.0 + second.0 && whole.1 == second.1 && whole.2 == second.2)
        }),
    decreases a,
{
    if a == 0 {
        let first = read_steps(vol, c, off, a);
        assert(first.0 + read_steps(vol, c, off, b).0 =~= read_steps(vol, c, off, b).0);
    } else if off < 0 || off >= vol.bpc() || !vol.valid_cluster(c) {
    } else {
        let n1 = if a < vol.bpc() - off { a } else { vol.bpc() - off };
        let n2 = if a + b < vol.bpc() - off { a + b } else { vol.bpc() - off };
        let o = vol.cluster_off(c) + off;
        lemma_cluster_in_image(vol, c);
        if n1 == n2 {
            let c2 = if off + n1 == vol.bpc() { vol.next_spec(c) } else { c };
            let off2 = if off + n1 == vol.bpc() { 0 } else { off + n1 };
            lemma_read_split(vol, c2, off2, a - n1, b);
            let r1 = read_steps(vol, c2, off2, a - n1);
            let r2 = read_steps(vol, r1.1, r1.2, b);
            assert(vol.image.subrange(o, o + n1) + r1.0 + r2.0 =~= vol.image.subrange(o, o + n1) + (r1.0 + r2.0));
        } else {
            // The first read ends inside the cluster: n1 == a < n2.
            assert(n1 == a);
            let first = read_steps(vol, c, off, a);
            assert(read_steps(vol, c, off + a, 0) == (Seq::<u8>::empty(), c, off + a));
            assert(first.0 =~= vol.image.subrange(o, o + a) + Seq::<u8>::empty());
            assert(first.1 == c && first.2 == off + a);
            let nb = if b < vol.bpc() - (off + a) { b } else { vol.bpc() - (off + a) };
            assert(n2 == a + nb);
            let c3 = if off + n2 == vol.bpc() { vol.next_spec(c) } else { c };
            let off3 = if off + n2 == vol.bpc() { 0 } else { off + n2 };
            assert(vol.image.subrange(o, o + a) + vol.image.subrange(o + a, o + a + nb) =~= vol.image.subrange(o, o + n2));
            let rest = read_steps(vol, c3, off3, b - nb);
            assert(vol.image.subrange(o, o + a) + (vol.image.subrange(o + a, o + a + nb) + rest.0)
                =~= vol.image.subrange(o, o + n2) + rest.0);
        }
    }
}

/// The cluster and the offset in it where byte `off` of the chain from
/// `c` lies; the walk stops at a number that is no cluster.
pub open spec fn skip_spec(vol: VolumeModel, c: int, off: int) -> (int, int)
    decreases off,
{
    if vol.bpc() <= 0 || off < vol.bpc() || !vol.valid_cluster(c) {
        (c, off)
    } else {
        skip_spec(vol, vol.next_spec(c), off - vol.bpc())
    }
}

/// How many clusters `bytes` bytes take.
pub open spec fn num_cluster(vol: VolumeModel, bytes: int) -> int {
    (bytes + vol.bpc() - 1) / vol.bpc()
}

proof fn lemma_num_cluster_bound(x: int, b: int)
    requires
        0 <= x,
        1 <= b,
    ensures
        0 <= (x + b - 1) / b <= x,
{
    assert(0 <= (x + b - 1) / b <= x) by (nonlinear_arith)
        requires 0 <= x, 1 <= b;
}

/// What the loop of `write` does from cluster `wc`, `woff` bytes into it,
/// with `total` bytes of `buf` written: the volume, the cluster, the offset
/// and the count after it. At the end of a cluster the write goes on in the
/// next one, or, at the end of the chain, in clusters linked to it (as many
/// as the rest of `buf` takes); each step fills the current cluster as far
/// as `buf` goes. It stops early at a number that is no cluster.
pub open spec fn write_steps(vol: VolumeModel, wc: int, woff: int, buf: Seq<u8>, total: int) -> (VolumeModel, int, int, int)
    decreases buf.len() - total,
{
    if total >= buf.len() || vol.bpc() <= 0 {
        (vol, wc, woff, total)
    } else if woff == vol.bpc() && !vol.valid_cluster(wc) {
        (vol, wc, woff, total)
    } else {
        let at_end = woff == vol.bpc();
        let next = vol.next_spec(wc);
        let ext = linked(vol.fat, wc, 2, 0, num_cluster(vol, buf.len() - total) as nat);
        let vol1 = if at_end && next == END_OF_CLUSTER_CHAIN { VolumeModel { fat: ext.0, ..vol } } else { vol };
        let wc1 = if at_end { if next == END_OF_CLUSTER_CHAIN { ext.1 } else { next } } else { wc };
        let woff1 = if at_end { 0 } else { woff };
        if !vol1.valid_cluster(wc1) || woff1 >= vol1.bpc() || woff1 < 0 {
            (vol1, wc1, woff1, total)
        } else {
            let n = if buf.len() - total < vol1.bpc() - woff1 { buf.len() - total } else { vol1.bpc() - woff1 };
            let vol2 = VolumeModel {
                image: overwrite(vol1.image, vol1.cluster_off(wc1) + woff1, buf.subrange(total, total + n)),
                ..vol1
            };
            write_steps(vol2, wc1, woff1 + n, buf, total + n)
        }
    }
}

/// An open file of a FAT volume: where its directory entry lies (cluster
/// and index), and where reading and writing have come to (offset in the
/// file, cluster, offset in the cluster).
pub struct FileDescriptor {
    pub entry_cluster: u64,
    pub entry_index: usize,
    pub rd_off: usize,
    pub rd_cluster: u64,
    pub rd_cluster_off: usize,
    pub wr_off: usize,
    pub wr_cluster: u64,
    pub wr_cluster_off: usize,
}

impl FileDescriptor {
    /// The descriptor's entry lies in `vol`.
    pub open spec fn wf(&self, vol: VolumeModel) -> bool {
        &&& vol.wf()
        &&& vol.valid_cluster(self.entry_cluster as int)
        &&& self.entry_index < vol.epc()
    }

    /// The file's size, as its entry in `vol` says.
    pub open spec fn size_spec(&self, vol: VolumeModel) -> int {
        vol.entry_size(self.entry_cluster as int, self.entry_index as int)
    }

    /// The file's first cluster, as its entry in `vol` says.
    pub open spec fn first_spec(&self, vol: VolumeModel) -> int {
        vol.entry_first_cluster(self.entry_cluster as int, self.entry_index as int)
    }

    /// A descriptor of the file whose entry is entry `index` of cluster
    /// `cluster`: reading and writing start at its first cluster.
    pub fn new_fat(vol: &FatVolume, cluster: u64, index: usize) -> (r: Self)
        requires
            vol@.wf(),
            vol@.valid_cluster(cluster as int),
            index < vol@.epc(),
        ensures
            r.wf(vol@),
            r == (FileDescriptor {
                entry_cluster: cluster,
                entry_index: index,
                rd_off: 0,
                rd_cluster: r.first_spec(vol@) as u64,
                rd_cluster_off: 0,
                wr_off: 0,
                wr_cluster: r.first_spec(vol@) as u64,
                wr_cluster_off: 0,
            }),
            r.first_spec(vol@) <= u32::MAX,
    {
        let e = vol.entry_at(cluster, index);
        let first = e.first_cluster() as u64;
        FileDescriptor {
            entry_cluster: cluster,
            entry_index: index,
            rd_off: 0,
            rd_cluster: first,
            rd_cluster_off: 0,
            wr_off: 0,
            wr_cluster: first,
            wr_cluster_off: 0,
        }
    }

    /// The file's size.
    pub fn size(&self, vol: &FatVolume) -> (r: usize)
        requires
            self.wf(vol@),
        ensures
            r == self.size_spec(vol@),
    {
        let e = vol.entry_at(self.entry_cluster, self.entry_index);
        e.file_size as usize
    }

    /// Reads up to `buf.len()` bytes, and no further than the file's size,
    /// into the start of `buf` (see `read_steps`); gives how many.
    pub fn read(&mut self, vol: &FatVolume, buf: &mut Vec<u8>) -> (r: usize)
        requires
            old(self).wf(vol@),
            old(self).rd_cluster_off <= old(self).rd_off <= old(self).size_spec(vol@),
        ensures
            ({
                let size = old(self).size_spec(vol@);
                let len = if old(buf)@.len() < size - old(self).rd_off { old(buf)@.len() as int } else { size - old(self).rd_off };
                let res = read_steps(vol@, old(self).rd_cluster as int, old(self).rd_cluster_off as int, len);
                &&& r == res.0.len()
                &&& final(buf)@ == overwrite(old(buf)@, 0, res.0)
                &&& *final(self) == (FileDescriptor {
                    rd_off: (old(self).rd_off + r) as usize,
                    rd_cluster: res.1 as u64,
                    rd_cluster_off: res.2 as usize,
                    ..*old(self)
                })
            }),
            final(self).rd_cluster_off <= final(self).rd_off <= final(self).size_spec(vol@),
    {
        let size = self.size(vol);
        let blen = buf.len();
        let len: usize = if blen < size - self.rd_off { blen } else { size - self.rd_off };
        let bpc = vol.bytes_per_cluster() as usize;
        let fe = vol.fat().len() as u64;
        let ghost target = read_steps(vol@, self.rd_cluster as int, self.rd_cluster_off as int, len as int);
        let ghost mut done: Seq<u8> = Seq::empty();
        let mut c: u64 = self.rd_cluster;
        let mut off: usize = self.rd_cluster_off;
        let mut total: usize = 0;
        proof {
            lemma_read_steps(vol@, c as int, off as int, len as int);
        }
        while total < len && 2 <= c && c < fe && off < bpc
            invariant
                self.wf(vol@),
                *self == *old(self),
                bpc == vol@.bpc(),
                fe == vol@.fat_entries(),
                len <= blen,
                blen == buf@.len(),
                old(self).rd_off + len <= size,
                size == self.size_spec(vol@),
                size <= u32::MAX,
                total <= len,
                total == done.len(),
                old(self).rd_cluster_off <= old(self).rd_off,
                off <= old(self).rd_cluster_off + total,
                buf@ == overwrite(old(buf)@, 0, done),
                done + read_steps(vol@, c as int, off as int, len - total).0 == target.0,
                read_steps(vol@, c as int, off as int, len - total).1 == target.1,
                read_steps(vol@, c as int, off as int, len - total).2 == target.2,
            decreases len - total,
        {
            let n: usize = if len - total < bpc - off { len - total } else { bpc - off };
            let base = vol.cluster_offset(c);
            let img = vol.image();
            let ilen = img.len();
            assert(base + off < ilen);
            let o = base + off;
            let mut k: usize = 0;
            while k < n
                invariant
                    k <= n,
                    off + n <= bpc,
                    total + n <= len,
                    total == done.len(),
                    len <= blen,
                    blen == buf@.len(),
                    ilen == img@.len(),
                    img@ == vol@.image,
                    o + n <= vol@.image.len(),
                    buf@ == overwrite(old(buf)@, 0, done + vol@.image.subrange(o as int, o + k)),
                decreases n - k,
            {
                buf.set(total + k, img[o + k]);
                k = k + 1;
                assert(buf@ =~= overwrite(old(buf)@, 0, done + vol@.image.subrange(o as int, o + k)));
            }
            proof {
                let part = vol@.image.subrange(o as int, o + n);
                let rs = read_steps(vol@, c as int, off as int, len - total);
                let next_c = if off + n == bpc { vol@.next_spec(c as int) } else { c as int };
                let next_off = if off + n == bpc { 0 } else { off + n };
                let rest = read_steps(vol@, next_c, next_off, len - total - n);
                assert(rs.0 == part + rest.0);
                assert(done + rs.0 =~= (done + part) + rest.0);
                done = done + part;
            }
            total = total + n;
            if off + n == bpc {
                c = vol.next_cluster(c);
                off = 0;
            } else {
                off = off + n;
            }
        }
        proof {
            assert(read_steps(vol@, c as int, off as int, len - total).0 =~= Seq::<u8>::empty());
            assert(done =~= target.0);
        }
        self.rd_off = self.rd_off + total;
        self.rd_cluster = c;
        self.rd_cluster_off = off;
        total
    }

    /// Reads the file from byte `offset` into the start of `buf`, as a
    /// fresh descriptor would that stood at `offset`; gives how many bytes.
    pub fn load(&self, vol: &FatVolume, buf: &mut Vec<u8>, offset: usize) -> (r: usize)
        requires
            self.wf(vol@),
            offset <= self.size_spec(vol@),
        ensures
            ({
                let start = skip_spec(vol@, self.first_spec(vol@), offset as int);
                let size = self.size_spec(vol@);
                let len = if old(buf)@.len() < size - offset { old(buf)@.len() as int } else { size - offset };
                let res = read_steps(vol@, start.0, start.1, len);
                &&& r == res.0.len()
                &&& final(buf)@ == overwrite(old(buf)@, 0, res.0)
            }),
    {
        let e = vol.entry_at(self.entry_cluster, self.entry_index);
        let mut c: u64 = e.first_cluster() as u64;
        let mut off: usize = offset;
        let bpc = vol.bytes_per_cluster() as usize;
        let fe = vol.fat().len() as u64;
        while off >= bpc && 2 <= c && c < fe
            invariant
                self.wf(vol@),
                bpc == vol@.bpc(),
                fe == vol@.fat_entries(),
                off <= offset,
                skip_spec(vol@, self.first_spec(vol@), offset as int) == skip_spec(vol@, c as int, off as int),
            decreases off,
        {
            off = off - bpc;
            c = vol.next_cluster(c);
        }
        let mut fd = FileDescriptor {
            entry_cluster: self.entry_cluster,
            entry_index: self.entry_index,
            rd_off: offset,
            rd_cluster: c,
            rd_cluster_off: off,
            wr_off: 0,
            wr_cluster: 0,
            wr_cluster_off: 0,
        };
        fd.read(vol, buf)
    }

    /// Where the write of `len` bytes starts: the descriptor's write
    /// cluster; for a file with none yet (cluster 0), a chain allocated for
    /// `len` bytes (see `FatVolume::allocate_chain`), which becomes the
    /// file's first cluster, with the volume after that.
    pub open spec fn start_spec(&self, vol: VolumeModel, len: int) -> Result<(VolumeModel, int), Code> {
        if self.wr_cluster != 0 {
            Ok((vol, self.wr_cluster as int))
        } else {
            let n = num_cluster(vol, len);
            let f = first_free(vol.fat);
            if f < 0 {
                Err(Code::NoEnoughMemory)
            } else if n > 1 && !reaches_end(vol.fat.update(f, END_OF_CLUSTER_CHAIN as u32), f, vol.fat.len()) {
                Err(Code::InvalidFile)
            } else {
                let v1 = VolumeModel { fat: allocated(vol.fat, n as nat), ..vol };
                let eo = v1.entry_off(self.entry_cluster as int, self.entry_index as int);
                let v2 = VolumeModel {
                    image: put16(put16(v1.image, eo + 26, f % 0x1_0000), eo + 20, f / 0x1_0000),
                    ..v1
                };
                Ok((v2, f))
            }
        }
    }

    /// Writes `buf` at the write position (see `start_spec` and
    /// `write_steps`), then sets the file's size to the write offset moved
    /// past `buf`; gives how many bytes were written.
    pub fn write(&mut self, vol: &mut FatVolume, buf: &[u8]) -> (r: Result<usize, Code>)
        requires
            old(self).wf(old(vol)@),
            old(self).wr_cluster_off <= old(vol)@.bpc(),
            old(self).wr_off + buf@.len() <= usize::MAX,
        ensures
            final(self).wf(final(vol)@),
            match old(self).start_spec(old(vol)@, buf@.len() as int) {
                Err(e) => r == Err::<usize, Code>(e) && final(vol)@ == old(vol)@ && *final(self) == *old(self),
                Ok((v, wc)) => {
                    let res = write_steps(v, wc, old(self).wr_cluster_off as int, buf@, 0);
                    let wr_off = old(self).wr_off + buf@.len();
                    &&& r == Ok::<usize, Code>(res.3 as usize)
                    &&& final(vol)@ == (VolumeModel {
                        image: put32(res.0.image, res.0.entry_off(old(self).entry_cluster as int, old(self).entry_index as int) + 28, wr_off % 0x1_0000_0000),
                        ..res.0
                    })
                    &&& *final(self) == (FileDescriptor {
                        wr_off: wr_off as usize,
                        wr_cluster: res.1 as u64,
                        wr_cluster_off: res.2 as usize,
                        rd_cluster: if old(self).wr_cluster == 0 { wc as u64 } else { old(self).rd_cluster },
                        ..*old(self)
                    })
                },
            },
    {
        let bpc = vol.bytes_per_cluster() as usize;
        let fe = vol.fat().len() as u64;
        let blen = buf.len();
        let mut wc: u64 = self.wr_cluster;
        if wc == 0 {
            proof { lemma_num_cluster_bound(blen as int, bpc as int); }
            let ncl: usize = ((blen as u128 + bpc as u128 - 1) / bpc as u128) as usize;
            match vol.allocate_chain(ncl) {
                Err(e) => return Err(e),
                Ok(f) => {
                    wc = f;
                    self.rd_cluster = f;
                    vol.set_entry_first_cluster(self.entry_cluster, self.entry_index, f as u32);
                    assert(ncl == num_cluster(old(vol)@, blen as int));
                    proof {
                        let fr = first_free(old(vol)@.fat);
                        assert(fr >= 0);
                        assert(f as u32 as int == fr);
                        let v1 = VolumeModel { fat: allocated(old(vol)@.fat, ncl as nat), ..old(vol)@ };
                        let eo = v1.entry_off(self.entry_cluster as int, self.entry_index as int);
                        assert(vol@ == (VolumeModel {
                            image: put16(put16(v1.image, eo + 26, fr % 0x1_0000), eo + 20, fr / 0x1_0000),
                            ..v1
                        }));
                    }
                    assert(old(self).start_spec(old(vol)@, blen as int) == Ok::<(VolumeModel, int), Code>((vol@, f as int)));
                },
            }
        }
        let mut woff: usize = self.wr_cluster_off;
        let mut total: usize = 0;
        let ghost target = write_steps(vol@, wc as int, woff as int, buf@, 0);
        loop
            invariant_except_break
                write_steps(vol@, wc as int, woff as int, buf@, total as int) == target,
            invariant
                vol@.wf(),
                vol@.valid_cluster(self.entry_cluster as int),
                self.entry_index < vol@.epc(),
                bpc == vol@.bpc(),
                fe == vol@.fat_entries(),
                blen == buf@.len(),
                total <= blen,
                woff <= bpc,
            ensures
                vol@.wf(),
                vol@.valid_cluster(self.entry_cluster as int),
                self.entry_index < vol@.epc(),
                target == (vol@, wc as int, woff as int, total as int),
            decreases blen - total,
        {
            if total >= blen {
                break;
            }
            let ghost v0 = vol@;
            let ghost c0 = wc;
            let ghost o0 = woff;
            if woff == bpc {
                if wc < 2 || wc >= fe {
                    break;
                }
                let next = vol.next_cluster(wc);
                if next == END_OF_CLUSTER_CHAIN {
                    proof { lemma_num_cluster_bound((blen - total) as int, bpc as int); }
                    let ncl: usize = ((((blen - total) as u128) + bpc as u128 - 1) / bpc as u128) as usize;
                    proof {
                        assert(chain_end(vol@.fat, wc as int, vol@.fat.len()) == wc);
                    }
                    wc = vol.extend_chain(wc, ncl);
                } else {
                    wc = next;
                }
                woff = 0;
            }
            if wc < 2 || wc >= fe || woff >= bpc {
                break;
            }
            let n: usize = if blen - total < bpc - woff { blen - total } else { bpc - woff };
            let part = vstd::slice::slice_subrange(buf, total, total + n);
            vol.write_cluster(wc, woff, part);
            total = total + n;
            woff = woff + n;
        }
        let wr_off = self.wr_off + blen;
        vol.set_entry_size(self.entry_cluster, self.entry_index, (wr_off as u64 % 0x1_0000_0000) as u32);
        self.wr_off = wr_off;
        self.wr_cluster = wc;
        self.wr_cluster_off = woff;
        Ok(total)
    }
}

/// The bit of a keyboard's modifier byte that the left control key sets.
pub const LCONTROL_BIT: u8 = 0;
/// The bit of a keyboard's modifier byte that the right control key sets.
pub const RCONTROL_BIT: u8 = 4;

/// What reading from a terminal does with a key event.
#[derive(Clone, Copy, Debug, PartialEq, Eq, Structural)]
pub enum TerminalKey {
    /// A key release: wait for the next event.
    Ignore,
    /// A key pressed with control: show `^` and the key in upper case; at
    /// `end` (control-D), the read ends with 0 bytes, else it goes on.
    Control { echo: u8, end: bool },
    /// A key pressed alone: show it, and it is the byte read.
    Char(u8),
}

/// How a terminal read takes the key event (`press`, `modifier`,
/// `keycode`, `ascii`).
pub fn terminal_key(press: bool, modifier: u8, keycode: u8, ascii: u8) -> (r: TerminalKey)
    ensures
        ({
            let ctrl = (modifier >> LCONTROL_BIT) & 1 == 1 || (modifier >> RCONTROL_BIT) & 1 == 1;
            &&& !press ==> r == TerminalKey::Ignore
            &&& press && ctrl ==> r == (TerminalKey::Control {
                echo: if 0x61 <= ascii <= 0x7a { (ascii - 0x20) as u8 } else { ascii },
                end: keycode == 7,
            })
            &&& press && !ctrl ==> r == TerminalKey::Char(ascii)
        }),
{
    if !press {
        return TerminalKey::Ignore;
    }
    if (modifier >> LCONTROL_BIT) & 1 == 1 || (modifier >> RCONTROL_BIT) & 1 == 1 {
        let echo = if 0x61 <= ascii && ascii <= 0x7a { ascii - 0x20 } else { ascii };
        return TerminalKey::Control { echo, end: keycode == 7 };
    }
    TerminalKey::Char(ascii)
}

/// Turning flags into their number and back gives the same flags, and the
/// other way round.
pub proof fn lemma_flags_round_trip(f: FileFlags, v: i32)
    ensures
        <FileFlags as vstd::std_specs::convert::FromSpec<i32>>::from_spec(
            <i32 as vstd::std_specs::convert::FromSpec<FileFlags>>::from_spec(f)) == f,
        <i32 as vstd::std_specs::convert::FromSpec<FileFlags>>::from_spec(
            <FileFlags as vstd::std_specs::convert::FromSpec<i32>>::from_spec(v)) == v,
{
}

/// What a write gives back: bytes written, at most a cluster's worth, to
/// a file through a fresh descriptor whose file already has a first
/// cluster (other than the one holding its entry) are what a fresh
/// descriptor of the file then reads, and the file's size is their count.
pub proof fn lemma_read_back(vol: VolumeModel, fd: FileDescriptor, buf: Seq<u8>, read_len: int)
    requires
        fd.wf(vol),
        fd.wr_cluster != 0,
        fd.wr_cluster == fd.first_spec(vol),
        vol.valid_cluster(fd.wr_cluster as int),
        fd.wr_cluster != fd.entry_cluster,
        fd.wr_off == 0,
        fd.wr_cluster_off == 0,
        buf.len() <= vol.bpc(),
        read_len >= buf.len(),
    ensures
        ({
            let start = fd.start_spec(vol, buf.len() as int);
            let res = write_steps(vol, fd.wr_cluster as int, 0, buf, 0);
            let after = VolumeModel {
                image: put32(res.0.image, res.0.entry_off(fd.entry_cluster as int, fd.entry_index as int) + 28,
                    (buf.len() % 0x1_0000_0000) as int),
                ..res.0
            };
            let size = fd.size_spec(after);
            let len = if read_len < size { read_len } else { size };
            &&& start == Ok::<(VolumeModel, int), Code>((vol, fd.wr_cluster as int))
            &&& res.3 == buf.len()
            &&& size == buf.len()
            &&& fd.first_spec(after) == fd.wr_cluster
            &&& read_steps(after, fd.first_spec(after), 0, len).0 == buf
        }),
{
    let wc = fd.wr_cluster as int;
    let len = buf.len() as int;
    let bpc = vol.bpc();
    let eo = vol.entry_off(fd.entry_cluster as int, fd.entry_index as int);
    let co = vol.cluster_off(wc);
    lemma_cluster_in_image(vol, wc);
    lemma_cluster_in_image(vol, fd.entry_cluster as int);
    assert(32 * fd.entry_index + 32 <= bpc) by (nonlinear_arith)
        requires fd.entry_index < bpc / 32, bpc >= 0;
    if wc < fd.entry_cluster {
        lemma_clusters_apart(vol, wc, fd.entry_cluster as int);
    } else {
        lemma_clusters_apart(vol, fd.entry_cluster as int, wc);
    }
    let res = write_steps(vol, wc, 0, buf, 0);
    let v2 = VolumeModel { image: overwrite(vol.image, co, buf.subrange(0, len)), ..vol };
    if len > 0 {
        assert(write_steps(v2, wc, len, buf, len) == (v2, wc, len, len));
        assert(res == (v2, wc, len, len));
        assert(buf.subrange(0, len) =~= buf);
    } else {
        assert(res == (vol, wc, 0int, 0int));
    }
    let after = VolumeModel { image: put32(res.0.image, eo + 28, len % 0x1_0000_0000), ..res.0 };
    crate::bytes::lemma_read_after_write32(res.0.image, eo + 28, len % 0x1_0000_0000);
    assert(bpc <= 0xffff * 0xff) by (nonlinear_arith)
        requires bpc == vol.bpb.byts_per_sec * vol.bpb.sec_per_clus, vol.bpb.byts_per_sec <= 0xffff, vol.bpb.sec_per_clus <= 0xff;
    assert(fd.size_spec(after) == len);
    assert(after.image[eo + 20] == vol.image[eo + 20]);
    assert(after.image[eo + 21] == vol.image[eo + 21]);
    assert(after.image[eo + 26] == vol.image[eo + 26]);
    assert(after.image[eo + 27] == vol.image[eo + 27]);
    assert(fd.first_spec(after) == fd.first_spec(vol));
    if len > 0 {
        let rs = read_steps(after, wc, 0, len);
        let c2 = if len == bpc { after.next_spec(wc) } else { wc };
        let o2 = if len == bpc { 0 } else { len };
        assert(read_steps(after, c2, o2, 0).0 =~= Seq::<u8>::empty());
        assert(rs.0 == after.image.subrange(co, co + len) + read_steps(after, c2, o2, 0).0);
        assert(after.image.subrange(co, co + len) =~= buf);
    } else {
        assert(read_steps(after, wc, 0, 0).0 =~= buf);
    }
}

} // verus!
