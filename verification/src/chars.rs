//! Fixed buffers that text is formatted into where there is no heap to
//! grow strings: one of 16-bit characters for the firmware, one of bytes.
use vstd::prelude::*;

verus! {

/// A buffer of 16-bit characters holding a zero-terminated string.
pub struct Str16Buf {
    buf: Vec<u16>,
    pos: usize,
}

impl Str16Buf {
    pub closed spec fn buf_spec(&self) -> Seq<u16> {
        self.buf@
    }

    pub closed spec fn pos_spec(&self) -> nat {
        self.pos as nat
    }

    /// A buffer over `buf`, empty.
    pub fn new(buf: Vec<u16>) -> (r: Self)
        ensures
            r.buf_spec() == buf@,
            r.pos_spec() == 0,
    {
        Str16Buf { buf, pos: 0 }
    }

    /// Empties the buffer (a buffer of no room stays as it is).
    pub fn clear(&mut self)
        ensures
            old(self).buf_spec().len() == 0 ==> *final(self) == *old(self),
            old(self).buf_spec().len() > 0 ==> final(self).buf_spec() == old(self).buf_spec().update(0, 0u16)
                && final(self).pos_spec() == 0,
    {
        if self.buf.len() == 0 {
            return;
        }
        self.buf.set(0, 0);
        self.pos = 0;
    }

    /// Appends the characters of `s`, each cut to 16 bits, as far as the
    /// buffer has room with one place left for the terminating 0, which
    /// follows them.
    pub fn write_str(&mut self, s: &str)
        requires
            old(self).pos_spec() < old(self).buf_spec().len(),
        ensures
            ({
                let p = old(self).pos_spec() as int;
                let room = old(self).buf_spec().len() - 1 - p;
                let m = if s@.len() <= room { s@.len() as int } else { room };
                &&& final(self).pos_spec() == p + m
                &&& final(self).buf_spec().len() == old(self).buf_spec().len()
                &&& forall|k: int| 0 <= k < m ==> #[trigger] final(self).buf_spec()[p + k] == (s@[k] as u32 % 0x1_0000) as u16
                &&& final(self).buf_spec()[p + m] == 0
                &&& forall|k: int| 0 <= k < old(self).buf_spec().len() && !(p <= k <= p + m) ==> #[trigger] final(self).buf_spec()[k] == old(self).buf_spec()[k]
            }),
    {
        let n = s.unicode_len();
        let len = self.buf.len();
        let ghost p = self.pos as int;
        let mut k: usize = 0;
        while k < n
            invariant
                n == s@.len(),
                len == self.buf@.len(),
                len == old(self).buf@.len(),
                p == old(self).pos,
                self.pos == p + k,
                self.pos < len,
                k <= n,
                forall|j: int| 0 <= j < k ==> #[trigger] self.buf@[p + j] == (s@[j] as u32 % 0x1_0000) as u16,
                forall|j: int| 0 <= j < len && !(p <= j < p + k) ==> #[trigger] self.buf@[j] == old(self).buf@[j],
            ensures
                k == n || self.pos == len - 1,
                len == self.buf@.len(),
                self.pos == p + k,
                self.pos < len,
                k <= n,
                forall|j: int| 0 <= j < k ==> #[trigger] self.buf@[p + j] == (s@[j] as u32 % 0x1_0000) as u16,
                forall|j: int| 0 <= j < len && !(p <= j < p + k) ==> #[trigger] self.buf@[j] == old(self).buf@[j],
            decreases n - k,
        {
            if self.pos == len - 1 {
                break;
            }
            let c = s.get_char(k);
            let v = (c as u32 % 0x1_0000) as u16;
            self.buf.set(self.pos, v);
            self.pos = self.pos + 1;
            k = k + 1;
        }
        self.buf.set(self.pos, 0);
    }
}

/// A buffer of bytes filled from the front.
pub struct Str8Buf {
    buf: Vec<u8>,
    pos: usize,
}

impl Str8Buf {
    pub closed spec fn buf_spec(&self) -> Seq<u8> {
        self.buf@
    }

    pub closed spec fn pos_spec(&self) -> nat {
        self.pos as nat
    }

    /// A buffer over `buf`, empty.
    pub fn new(buf: Vec<u8>) -> (r: Self)
        ensures
            r.buf_spec() == buf@,
            r.pos_spec() == 0,
    {
        Str8Buf { buf, pos: 0 }
    }

    /// The bytes written so far.
    pub fn get(&self) -> (r: &[u8])
        requires
            self.pos_spec() <= self.buf_spec().len(),
        ensures
            r@ == self.buf_spec().subrange(0, self.pos_spec() as int),
    {
        vstd::slice::slice_subrange(self.buf.as_slice(), 0, self.pos)
    }

    /// Appends the characters of `s`, each cut to 8 bits, as far as the
    /// buffer has room with its last place left unused.
    pub fn write_str(&mut self, s: &str)
        requires
            old(self).pos_spec() < old(self).buf_spec().len(),
        ensures
            ({
                let p = old(self).pos_spec() as int;
                let room = old(self).buf_spec().len() - 1 - p;
                let m = if s@.len() <= room { s@.len() as int } else { room };
                &&& final(self).pos_spec() == p + m
                &&& final(self).buf_spec().len() == old(self).buf_spec().len()
                &&& forall|k: int| 0 <= k < m ==> #[trigger] final(self).buf_spec()[p + k] == (s@[k] as u32 % 0x100) as u8
                &&& forall|k: int| 0 <= k < old(self).buf_spec().len() && !(p <= k < p + m) ==> #[trigger] final(self).buf_spec()[k] == old(self).buf_spec()[k]
            }),
    {
        let n = s.unicode_len();
        let len = self.buf.len();
        let ghost p = self.pos as int;
        let mut k: usize = 0;
        while k < n
            invariant
                n == s@.len(),
                len == self.buf@.len(),
                len == old(self).buf@.len(),
                p == old(self).pos,
                self.pos == p + k,
                self.pos < len,
                k <= n,
                forall|j: int| 0 <= j < k ==> #[trigger] self.buf@[p + j] == (s@[j] as u32 % 0x100) as u8,
                forall|j: int| 0 <= j < len && !(p <= j < p + k) ==> #[trigger] self.buf@[j] == old(self).buf@[j],
            ensures
                k == n || self.pos == len - 1,
                len == self.buf@.len(),
                self.pos == p + k,
                self.pos < len,
                k <= n,
                forall|j: int| 0 <= j < k ==> #[trigger] self.buf@[p + j] == (s@[j] as u32 % 0x100) as u8,
                forall|j: int| 0 <= j < len && !(p <= j < p + k) ==> #[trigger] self.buf@[j] == old(self).buf@[j],
            decreases n - k,
        {
            if self.pos == len - 1 {
                break;
            }
            let c = s.get_char(k);
            let v = (c as u32 % 0x100) as u8;
            self.buf.set(self.pos, v);
            self.pos = self.pos + 1;
            k = k + 1;
        }
    }
}

} // verus!
