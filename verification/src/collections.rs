//! The kernel's hash map: open addressing with linear probing, FNV hashing
//! and tombstones for removed entries.
use vstd::prelude::*;

verus! {

/// The FNV offset basis.
pub const FNV_OFFSET: u64 = 0xcbf2_9ce4_8422_2325;

/// The FNV prime.
pub const FNV_PRIME: u64 = 0x100_0000_01b3;

/// The state after feeding `bytes` to an FNV state `h`: for each byte, the
/// state is multiplied by the prime (modulo 2^64) and the byte is xored in.
pub open spec fn fnv_extend(h: u64, bytes: Seq<u8>) -> u64
    decreases bytes.len(),
{
    if bytes.len() == 0 {
        h
    } else {
        let h1 = fnv_extend(h, bytes.drop_last());
        ((h1 as int * FNV_PRIME as int) % 0x1_0000_0000_0000_0000) as u64
            ^ (bytes.last() as u64)
    }
}

/// An FNV hasher.
#[derive(Clone, Copy, Debug)]
pub struct FnvHasher {
    hash: u64,
}

impl View for FnvHasher {
    type V = u64;

    closed spec fn view(&self) -> u64 {
        self.hash
    }
}

impl FnvHasher {
    /// A hasher in the initial FNV state.
    pub fn new() -> (r: Self)
        ensures
            r@ == FNV_OFFSET,
    {
        FnvHasher { hash: FNV_OFFSET }
    }

    /// Feeds one byte.
    pub fn write_byte(&mut self, b: u8)
        ensures
            final(self)@ == ((old(self)@ as int * FNV_PRIME as int) % 0x1_0000_0000_0000_0000) as u64
                ^ (b as u64),
    {
        self.hash = self.hash.wrapping_mul(FNV_PRIME) ^ (b as u64);
    }

    /// Feeds `bytes`.
    pub fn write(&mut self, bytes: &[u8])
        ensures
            final(self)@ == fnv_extend(old(self)@, bytes@),
    {
        let mut i: usize = 0;
        while i < bytes.len()
            invariant
                i <= bytes@.len(),
                self@ == fnv_extend(old(self)@, bytes@.subrange(0, i as int)),
            decreases bytes@.len() - i,
        {
            proof {
                assert(bytes@.subrange(0, i as int + 1).drop_last() =~= bytes@.subrange(0, i as int));
            }
            self.write_byte(bytes[i]);
            i = i + 1;
        }
        proof {
            assert(bytes@.subrange(0, bytes@.len() as int) =~= bytes@);
        }
    }

    /// The hash of what was fed.
    pub fn finish(&self) -> (r: u64)
        ensures
            r == self@,
    {
        self.hash
    }
}

/// Makes FNV hashers, and hashes keys with a fresh one.
#[derive(Clone, Copy, Debug)]
pub struct FnvBuilder;

impl FnvBuilder {
    /// A hasher in the initial FNV state.
    pub fn build_hasher(&self) -> (r: FnvHasher)
        ensures
            r@ == FNV_OFFSET,
    {
        FnvHasher::new()
    }

    /// The FNV hash of `x`'s bytes.
    pub fn hash_one<K: HashKey>(&self, x: K) -> (r: u64)
        ensures
            r == fnv_extend(FNV_OFFSET, x.key_bytes()),
    {
        let mut hasher = FnvHasher::new();
        x.hash_into(&mut hasher);
        hasher.finish()
    }
}

/// The little-endian bytes of the low `n` bytes of `x`.
pub open spec fn le_bytes(x: nat, n: nat) -> Seq<u8>
    decreases n,
{
    if n == 0 {
        Seq::empty()
    } else {
        seq![(x % 256) as u8] + le_bytes(x / 256, (n - 1) as nat)
    }
}

/// A key the hash map can hold: it is hashed as the bytes `key_bytes`, the
/// way `core::hash::Hash` feeds an integer to a hasher (its little-endian
/// bytes), and compared by value.
pub trait HashKey: Sized + Copy {
    spec fn key_bytes(&self) -> Seq<u8>;

    fn hash_into(&self, hasher: &mut FnvHasher)
        ensures
            final(hasher)@ == fnv_extend(old(hasher)@, self.key_bytes()),
    ;

    fn key_eq(&self, other: &Self) -> (r: bool)
        ensures
            r == (*self == *other),
    ;
}

/// Feeds the low `n` little-endian bytes of `x`.
fn write_le(hasher: &mut FnvHasher, x: u64, n: u64)
    requires
        n <= 8,
    ensures
        final(hasher)@ == fnv_extend(old(hasher)@, le_bytes(x as nat, n as nat)),
    decreases n,
{
    if n > 0 {
        let ghost before = hasher@;
        hasher.write_byte((x % 256) as u8);
        let ghost mid = hasher@;
        write_le(hasher, x / 256, n - 1);
        proof {
            let b = (x % 256) as u8;
            lemma_fnv_prepend(before, b, le_bytes((x / 256) as nat, (n - 1) as nat));
            assert(seq![b].drop_last() =~= Seq::<u8>::empty());
            assert(fnv_extend(before, Seq::<u8>::empty()) == before);
            assert(fnv_extend(before, seq![b].drop_last()) == before);
            assert(seq![b].last() == b);
            assert(seq![b].len() == 1);
            assert(fnv_extend(before, seq![b]) == mid);
            assert(le_bytes(x as nat, n as nat) == seq![b] + le_bytes((x / 256) as nat, (n - 1) as nat));
        }
    }
}

/// Feeding one byte and then some more is feeding them all.
proof fn lemma_fnv_prepend(h: u64, b: u8, rest: Seq<u8>)
    ensures
        fnv_extend(h, seq![b] + rest) == fnv_extend(fnv_extend(h, seq![b]), rest),
    decreases rest.len(),
{
    if rest.len() == 0 {
        assert(seq![b] + rest =~= seq![b]);
    } else {
        lemma_fnv_prepend(h, b, rest.drop_last());
        assert((seq![b] + rest).drop_last() =~= seq![b] + rest.drop_last());
        assert((seq![b] + rest).last() == rest.last());
    }
}

impl HashKey for u64 {
    open spec fn key_bytes(&self) -> Seq<u8> {
        le_bytes(*self as nat, 8)
    }

    fn hash_into(&self, hasher: &mut FnvHasher) {
        write_le(hasher, *self, 8)
    }

    fn key_eq(&self, other: &Self) -> (r: bool) {
        *self == *other
    }
}

impl HashKey for u32 {
    open spec fn key_bytes(&self) -> Seq<u8> {
        le_bytes(*self as nat, 4)
    }

    fn hash_into(&self, hasher: &mut FnvHasher) {
        write_le(hasher, *self as u64, 4)
    }

    fn key_eq(&self, other: &Self) -> (r: bool) {
        *self == *other
    }
}

impl HashKey for i32 {
    /// The two's-complement bytes.
    open spec fn key_bytes(&self) -> Seq<u8> {
        le_bytes((if *self < 0 { *self + 0x1_0000_0000 } else { *self as int }) as nat, 4)
    }

    fn hash_into(&self, hasher: &mut FnvHasher) {
        let u: u64 = if *self < 0 { (*self as i64 + 0x1_0000_0000) as u64 } else { *self as u64 };
        write_le(hasher, u, 4)
    }

    fn key_eq(&self, other: &Self) -> (r: bool) {
        *self == *other
    }
}

/// The FNV hash of a key.
pub open spec fn key_hash<K: HashKey>(k: K) -> u64 {
    fnv_extend(FNV_OFFSET, k.key_bytes())
}

fn hash_key<K: HashKey>(k: &K) -> (h: u64)
    ensures
        h == key_hash(*k),
{
    let mut hasher = FnvHasher::new();
    k.hash_into(&mut hasher);
    hasher.finish()
}

/// A bucket of the hash map.
pub enum HashEntry<K, V> {
    Empty,
    Occupied { key: K, value: V },
    TombStone,
}

/// The position `i` steps after `h` in a table of `cap` buckets.
pub open spec fn probe(h: int, i: int, cap: int) -> int {
    if h + i < cap {
        h + i
    } else {
        h + i - cap
    }
}

/// How many steps after `h` position `j` comes.
pub open spec fn offset(h: int, j: int, cap: int) -> int {
    if j >= h {
        j - h
    } else {
        j + cap - h
    }
}

/// Empty buckets in `s`.
pub open spec fn count_none<K, V>(s: Seq<HashEntry<K, V>>) -> nat
    decreases s.len(),
{
    if s.len() == 0 {
        0
    } else {
        count_none(s.drop_last()) + if s.last() is Empty { 1nat } else { 0nat }
    }
}

/// Tombstones in `s`.
pub open spec fn count_tomb<K, V>(s: Seq<HashEntry<K, V>>) -> nat
    decreases s.len(),
{
    if s.len() == 0 {
        0
    } else {
        count_tomb(s.drop_last()) + if s.last() is TombStone { 1nat } else { 0nat }
    }
}

proof fn lemma_count_bounds<K, V>(s: Seq<HashEntry<K, V>>)
    ensures
        count_none(s) + count_tomb(s) <= s.len(),
    decreases s.len(),
{
    if s.len() > 0 {
        lemma_count_bounds(s.drop_last());
    }
}

proof fn lemma_count_update<K, V>(s: Seq<HashEntry<K, V>>, j: int, x: HashEntry<K, V>)
    requires
        0 <= j < s.len(),
    ensures
        count_none(s.update(j, x)) + (if s[j] is Empty { 1int } else { 0int }) == count_none(s) + (if x is Empty { 1int } else { 0int }),
        count_tomb(s.update(j, x)) + (if s[j] is TombStone { 1int } else { 0int }) == count_tomb(s) + (if x is TombStone { 1int } else { 0int }),
    decreases s.len(),
{
    if j == s.len() - 1 {
        assert(s.update(j, x).drop_last() =~= s.drop_last());
    } else {
        lemma_count_update(s.drop_last(), j, x);
        assert(s.update(j, x).drop_last() =~= s.drop_last().update(j, x));
    }
}

proof fn lemma_none_exists<K, V>(s: Seq<HashEntry<K, V>>)
    requires
        count_none(s) > 0,
    ensures
        exists|j: int| 0 <= j < s.len() && s[j] is Empty,
    decreases s.len(),
{
    if s.last() is Empty {
        assert(s[s.len() - 1] is Empty);
    } else {
        lemma_none_exists(s.drop_last());
        let j = choose|j: int| 0 <= j < s.drop_last().len() && s.drop_last()[j] is Empty;
        assert(s[j] is Empty);
    }
}

proof fn lemma_all_none<K, V>(s: Seq<HashEntry<K, V>>)
    requires
        forall|j: int| 0 <= j < s.len() ==> s[j] is Empty,
    ensures
        count_none(s) == s.len(),
        count_tomb(s) == 0,
    decreases s.len(),
{
    if s.len() > 0 {
        lemma_all_none(s.drop_last());
    }
}

/// A hash map with open addressing.
#[verifier::reject_recursive_types(K)]
pub struct HashMap<K: HashKey, V> {
    buckets: Vec<HashEntry<K, V>>,
    used: usize,
    contents: Ghost<Map<K, V>>,
}

impl<K: HashKey, V> View for HashMap<K, V> {
    type V = Map<K, V>;

    closed spec fn view(&self) -> Map<K, V> {
        self.contents@
    }
}

/// Table size a map starts with.
pub const INIT_SIZE: usize = 16;

/// A rehash grows the table until its use is below this percentage.
pub const LOW_WATERMARK: usize = 50;

/// An insert rehashes first when the use has reached this percentage.
pub const HIGH_WATERMARK: usize = 70;

/// The size a table of `cap` buckets grows to when rehashed with `used`
/// entries counted: doubled until the use is below the low watermark.
pub open spec fn grown_cap(cap: nat, used: nat) -> nat
    decreases used * 100 + 1 - cap,
{
    if cap == 0 || (used * 100) / cap < 50 {
        cap
    } else {
        proof { lemma_grow_measure(cap, used); }
        grown_cap(cap * 2, used)
    }
}

/// Whether `cap` is a size a map's table can have: none, or `INIT_SIZE`
/// doubled some number of times.
pub open spec fn cap_reachable(cap: nat) -> bool {
    cap == 0 || exists|j: nat| cap == (INIT_SIZE as nat) * vstd::arithmetic::power2::pow2(j)
}

/// The sizes of a map's table: no table at first, `INIT_SIZE` buckets with
/// the first insert, and doubling on a rehash; so the size is 0 or
/// `INIT_SIZE` times a power of two, and it never shrinks (remove and
/// clear keep it).
pub proof fn lemma_cap_reachable(cap: nat, used: nat)
    requires
        cap_reachable(cap),
    ensures
        cap_reachable(INIT_SIZE as nat),
        cap_reachable(grown_cap(cap, used)),
        grown_cap(cap, used) >= cap,
    decreases used * 100 + 1 - cap,
{
    vstd::arithmetic::power2::lemma2_to64();
    assert((INIT_SIZE as nat) == (INIT_SIZE as nat) * vstd::arithmetic::power2::pow2(0));
    if cap == 0 || (used * 100) / cap < 50 {
    } else {
        lemma_grow_measure(cap, used);
        let j = choose|j: nat| cap == (INIT_SIZE as nat) * vstd::arithmetic::power2::pow2(j);
        vstd::arithmetic::power2::lemma_pow2_unfold((j + 1) as nat);
        assert(cap * 2 == (INIT_SIZE as nat) * vstd::arithmetic::power2::pow2((j + 1) as nat)) by (nonlinear_arith)
            requires cap == (INIT_SIZE as nat) * vstd::arithmetic::power2::pow2(j),
                vstd::arithmetic::power2::pow2((j + 1) as nat) == 2 * vstd::arithmetic::power2::pow2(j);
        lemma_cap_reachable(cap * 2, used);
    }
}

/// A table whose use is below the low watermark has more than twice as many
/// buckets as entries.
pub proof fn lemma_below_low_watermark(used: nat, cap: nat)
    requires
        cap > 0,
        (used * 100) / cap < 50,
    ensures
        2 * used < cap,
{
    assert(2 * used < cap) by (nonlinear_arith)
        requires
            cap > 0,
            (used * 100) / cap < 50,
    {
        vstd::arithmetic::div_mod::lemma_fundamental_div_mod((used * 100) as int, cap as int);
    }
}

/// A table that still needs to grow is at most twice the entry count.
pub proof fn lemma_grow_measure(cap: nat, used: nat)
    requires
        cap > 0,
        (used * 100) / cap >= 50,
    ensures
        cap * 2 <= used * 4,
        used * 100 + 1 - cap * 2 >= 0,
{
    assert(cap * 2 <= used * 4) by (nonlinear_arith)
        requires
            cap > 0,
            (used * 100) / cap >= 50,
    {
        vstd::arithmetic::div_mod::lemma_fundamental_div_mod((used * 100) as int, cap as int);
    }
}

impl<K: HashKey, V> HashMap<K, V> {
    /// Number of buckets.
    pub closed spec fn cap_spec(&self) -> nat {
        self.buckets@.len()
    }

    /// The entry counter: raised by every insert, lowered by every remove
    /// that finds its key.
    pub closed spec fn used_spec(&self) -> nat {
        self.used as nat
    }

    /// Buckets left as tombstones by removes.
    pub closed spec fn tombstones(&self) -> nat {
        count_tomb(self.buckets@)
    }

    /// Buckets that are empty.
    pub open spec fn free_slots(&self) -> int {
        self.cap_spec() - self@.len() - self.tombstones()
    }

    /// Whether the next insert rehashes first: the table exists and its use
    /// has reached the high watermark.
    pub open spec fn needs_rehash(&self) -> bool {
        self.cap_spec() > 0 && (self.used_spec() * 100) / self.cap_spec() >= 70
    }

    /// Whether a probe for `k` ends: the map is empty-tabled, holds `k`, or
    /// has an empty bucket.
    pub open spec fn probe_ends(&self, k: K) -> bool {
        self.cap_spec() == 0 || self@.contains_key(k) || self.free_slots() > 0
    }

    spec fn home(&self, k: K) -> int {
        (key_hash(k) as int) % (self.buckets@.len() as int)
    }

    spec fn key_of(e: HashEntry<K, V>) -> K {
        match e {
            HashEntry::Occupied { key, .. } => key,
            _ => arbitrary(),
        }
    }

    spec fn reachable(&self, k: K, j: int) -> bool {
        let cap = self.buckets@.len() as int;
        let h = self.home(k);
        forall|t: int| 0 <= t < offset(h, j, cap) ==> !(#[trigger] self.buckets@[probe(h, t, cap)] is Empty)
    }

    /// The buckets hold exactly the entries of the map, each at most once and
    /// reachable from its home bucket without crossing an empty bucket; the
    /// entry counter is at least the number of entries.
    pub closed spec fn wf(&self) -> bool {
        let b = self.buckets@;
        let m = self.contents@;
        &&& b.len() <= isize::MAX
        &&& m.dom().finite()
        &&& m.dom().len() <= self.used
        &&& count_none(b) + count_tomb(b) + m.dom().len() == b.len()
        &&& forall|j: int| 0 <= j < b.len() && (#[trigger] b[j] is Occupied) ==> {
            &&& m.contains_key(Self::key_of(b[j]))
            &&& b[j] == (HashEntry::<K, V>::Occupied { key: Self::key_of(b[j]), value: m[Self::key_of(b[j])] })
            &&& self.reachable(Self::key_of(b[j]), j)
        }
        &&& forall|k: K| #[trigger] m.contains_key(k) ==> exists|j: int| 0 <= j < b.len() && b[j] == (HashEntry::<K, V>::Occupied { key: k, value: m[k] })
        &&& forall|i: int, j: int| 0 <= i < b.len() && 0 <= j < b.len() && (#[trigger] b[i] is Occupied) && (#[trigger] b[j] is Occupied)
            && Self::key_of(b[i]) == Self::key_of(b[j]) ==> i == j
    }

    /// An empty map without a table.
    pub fn new() -> (r: Self)
        ensures
            r.wf(),
            r@ == Map::<K, V>::empty(),
            r.cap_spec() == 0,
            r.used_spec() == 0,
            r.tombstones() == 0,
    {
        HashMap { buckets: Vec::new(), used: 0, contents: Ghost(Map::empty()) }
    }

    /// A table of `cap` empty buckets.
    fn vec_with_none(cap: usize) -> (r: Vec<HashEntry<K, V>>)
        ensures
            r@.len() == cap,
            forall|j: int| 0 <= j < cap ==> #[trigger] r@[j] is Empty,
    {
        let mut v: Vec<HashEntry<K, V>> = Vec::new();
        let mut i: usize = 0;
        while i < cap
            invariant
                i <= cap,
                v@.len() == i,
                forall|j: int| 0 <= j < i ==> #[trigger] v@[j] is Empty,
            decreases cap - i,
        {
            v.push(HashEntry::Empty);
            i = i + 1;
        }
        v
    }

    /// Home bucket of `k` in a table of `cap` buckets.
    fn home_of(k: &K, cap: usize) -> (h: usize)
        requires
            cap > 0,
        ensures
            h == (key_hash(*k) as int) % (cap as int),
            h < cap,
    {
        (hash_key(k) % (cap as u64)) as usize
    }

    /// Looks `k` up. The probe runs from `k`'s home bucket over tombstones
    /// and other keys up to an empty bucket; in a table with no empty
    /// bucket and without `k` it finds no end, which the caller rules out
    /// (`probe_ends`).
    pub fn get(&self, k: &K) -> (r: Option<&V>)
        requires
            self.wf(),
            self.probe_ends(*k),
        ensures
            r is Some <==> self@.contains_key(*k),
            r matches Some(v) ==> *v == self@[*k],
    {
        let cap = self.buckets.len();
        if cap == 0 {
            return None;
        }
        let h = Self::home_of(k, cap);
        let mut i: usize = 0;
        while i < cap
            invariant
                self.wf(),
                self.probe_ends(*k),
                cap == self.buckets@.len(),
                cap > 0,
                h == self.home(*k),
                0 <= h < cap,
                i <= cap,
                forall|t: int| 0 <= t < i ==> !(#[trigger] self.buckets@[probe(h as int, t, cap as int)] is Empty),
                forall|t: int| 0 <= t < i ==> !(self.buckets@[probe(h as int, t, cap as int)] == (HashEntry::<K, V>::Occupied { key: *k, value: self@[*k] })),
            decreases cap - i,
        {
            let p = if h + i < cap { h + i } else { h + i - cap };
            match &self.buckets[p] {
                HashEntry::Empty => {
                    proof { self.lemma_absent_at_empty(*k, i as int); }
                    return None;
                },
                HashEntry::TombStone => {},
                HashEntry::Occupied { key, value } => {
                    if key.key_eq(k) {
                        proof { self.lemma_found(*k, p as int); }
                        return Some(value);
                    }
                },
            }
            i = i + 1;
        }
        proof { self.lemma_probe_exhausted(*k); }
        None
    }

    proof fn lemma_found(&self, k: K, p: int)
        requires
            self.wf(),
            0 <= p < self.buckets@.len(),
            self.buckets@[p] is Occupied,
            Self::key_of(self.buckets@[p]) == k,
        ensures
            self@.contains_key(k),
            self.buckets@[p] == (HashEntry::<K, V>::Occupied { key: k, value: self@[k] }),
    {
    }

    /// A probe that meets an empty bucket after `i` steps without having
    /// passed `k` shows that `k` is not in the map.
    proof fn lemma_absent_at_empty(&self, k: K, i: int)
        requires
            self.wf(),
            self.buckets@.len() > 0,
            0 <= i < self.buckets@.len(),
            self.buckets@[probe(self.home(k), i, self.buckets@.len() as int)] is Empty,
            forall|t: int| 0 <= t < i ==> !(self.buckets@[probe(self.home(k), t, self.buckets@.len() as int)] == (HashEntry::<K, V>::Occupied { key: k, value: self@[k] })),
        ensures
            !self@.contains_key(k),
    {
        let cap = self.buckets@.len() as int;
        let h = self.home(k);
        if self@.contains_key(k) {
            let j = choose|j: int| 0 <= j < cap && self.buckets@[j] == (HashEntry::<K, V>::Occupied { key: k, value: self@[k] });
            assert(self.buckets@[j] is Occupied);
            assert(Self::key_of(self.buckets@[j]) == k);
            assert(self.reachable(k, j));
            let d = offset(h, j, cap);
            assert(probe(h, d, cap) == j);
            if d < i {
            } else if d == i {
            } else {
                assert(!(self.buckets@[probe(h, i, cap)] is Empty));
            }
        }
    }

    /// A probe that has passed every bucket without meeting `k` or an
    /// empty bucket contradicts `probe_ends`.
    proof fn lemma_probe_exhausted(&self, k: K)
        requires
            self.wf(),
            self.buckets@.len() > 0,
            forall|t: int| 0 <= t < self.buckets@.len() ==> !(#[trigger] self.buckets@[probe(self.home(k), t, self.buckets@.len() as int)] is Empty),
            forall|t: int| 0 <= t < self.buckets@.len() ==> !(self.buckets@[probe(self.home(k), t, self.buckets@.len() as int)] == (HashEntry::<K, V>::Occupied { key: k, value: self@[k] })),
        ensures
            !self.probe_ends(k),
    {
        let cap = self.buckets@.len() as int;
        let h = self.home(k);
        lemma_count_bounds(self.buckets@);
        if self@.contains_key(k) {
            let j = choose|j: int| 0 <= j < cap && self.buckets@[j] == (HashEntry::<K, V>::Occupied { key: k, value: self@[k] });
            let d = offset(h, j, cap);
            assert(probe(h, d, cap) == j);
        } else if count_none(self.buckets@) > 0 {
            lemma_none_exists(self.buckets@);
            let j = choose|j: int| 0 <= j < cap && self.buckets@[j] is Empty;
            let d = offset(h, j, cap);
            assert(probe(h, d, cap) == j);
        }
    }

    /// Puts `key` into the table as it is, without rehashing: into the
    /// bucket that holds it, or into the first empty bucket of its probe.
    fn insert_fresh(&mut self, key: K, value: V) -> (r: Option<V>)
        requires
            old(self).wf(),
            old(self).cap_spec() > 0,
            old(self)@.contains_key(key) || old(self).free_slots() > 0,
            old(self).used_spec() < usize::MAX,
        ensures
            final(self).wf(),
            final(self)@ == old(self)@.insert(key, value),
            r == if old(self)@.contains_key(key) { Some(old(self)@[key]) } else { None::<V> },
            final(self).used_spec() == old(self).used_spec() + 1,
            final(self).cap_spec() == old(self).cap_spec(),
            final(self).tombstones() == old(self).tombstones(),
    {
        let cap = self.buckets.len();
        let h = Self::home_of(&key, cap);
        self.used = self.used + 1;
        proof {
            lemma_count_bounds(self.buckets@);
            assert(self@.len() < self.used);
        }
        let mut i: usize = 0;
        while i < cap
            invariant
                self.wf(),
                self.buckets@ == old(self).buckets@,
                self@ == old(self)@,
                self.used == old(self).used + 1,
                self@.len() < self.used,
                self@.contains_key(key) || self.free_slots() > 0,
                cap == self.buckets@.len(),
                cap > 0,
                h == self.home(key),
                0 <= h < cap,
                i <= cap,
                forall|t: int| 0 <= t < i ==> !(#[trigger] self.buckets@[probe(h as int, t, cap as int)] is Empty),
                forall|t: int| 0 <= t < i ==> !(self.buckets@[probe(h as int, t, cap as int)] == (HashEntry::<K, V>::Occupied { key: key, value: self@[key] })),
            decreases cap - i,
        {
            let p = if h + i < cap { h + i } else { h + i - cap };
            let found: u8 = match &self.buckets[p] {
                HashEntry::Empty => 0,
                HashEntry::TombStone => 1,
                HashEntry::Occupied { key: cur, .. } => if cur.key_eq(&key) { 2 } else { 1 },
            };
            if found == 0 {
                proof { self.lemma_absent_at_empty(key, i as int); }
                let ghost before = *self;
                let ghost v = value;
                self.buckets.set(p, HashEntry::Occupied { key, value });
                self.contents = Ghost(self.contents@.insert(key, v));
                proof { self.lemma_place(before, key, v, p as int, i as int); }
                return None;
            } else if found == 2 {
                proof { self.lemma_found(key, p as int); }
                let ghost before = *self;
                let ghost v = value;
                let mut e = HashEntry::Occupied { key, value };
                self.buckets.set_and_swap(p, &mut e);
                self.contents = Ghost(self.contents@.insert(key, v));
                proof { self.lemma_replace(before, key, v, p as int); }
                match e {
                    HashEntry::Occupied { value: prev, .. } => {
                        return Some(prev);
                    },
                    _ => {
                        proof { assert(false); }
                        return None;
                    },
                }
            }
            i = i + 1;
        }
        proof { self.lemma_probe_exhausted(key); }
        None
    }

    /// Putting a new key into the empty bucket that ends its probe keeps the
    /// table well formed.
    proof fn lemma_place(&self, before: Self, key: K, v: V, p: int, i: int)
        requires
            before.wf(),
            before.buckets@.len() > 0,
            0 <= i < before.buckets@.len(),
            p == probe(before.home(key), i, before.buckets@.len() as int),
            before.buckets@[p] is Empty,
            !before@.contains_key(key),
            forall|t: int| 0 <= t < i ==> !(#[trigger] before.buckets@[probe(before.home(key), t, before.buckets@.len() as int)] is Empty),
            self.buckets@ == before.buckets@.update(p, (HashEntry::Occupied { key, value: v })),
            self@ == before@.insert(key, v),
            self.used == before.used,
            before@.len() < before.used,
        ensures
            self.wf(),
            self.tombstones() == before.tombstones(),
    {
        let b = before.buckets@;
        let nb = self.buckets@;
        let cap = b.len() as int;
        lemma_count_update(b, p, (HashEntry::Occupied { key, value: v }));
        assert(self.home(key) == before.home(key));
        assert forall|k2: K| self.home(k2) == before.home(k2) by {}
        assert forall|j: int| 0 <= j < nb.len() && (#[trigger] nb[j] is Occupied) implies {
            &&& self@.contains_key(Self::key_of(nb[j]))
            &&& nb[j] == (HashEntry::<K, V>::Occupied { key: Self::key_of(nb[j]), value: self@[Self::key_of(nb[j])] })
            &&& self.reachable(Self::key_of(nb[j]), j)
        } by {
            let kj = Self::key_of(nb[j]);
            let h = before.home(kj);
            if j == p {
                assert forall|t: int| 0 <= t < offset(h, j, cap) implies !(#[trigger] nb[probe(h, t, cap)] is Empty) by {
                    assert(probe(h, t, cap) != p);
                }
            } else {
                assert(b[j] is Occupied);
                assert(before.reachable(kj, j));
                assert forall|t: int| 0 <= t < offset(h, j, cap) implies !(#[trigger] nb[probe(h, t, cap)] is Empty) by {
                    assert(!(b[probe(h, t, cap)] is Empty));
                }
            }
        }
        assert forall|k2: K| #[trigger] self@.contains_key(k2) implies exists|j: int| 0 <= j < nb.len() && nb[j] == (HashEntry::<K, V>::Occupied { key: k2, value: self@[k2] }) by {
            if k2 == key {
                assert(nb[p] == (HashEntry::<K, V>::Occupied { key: k2, value: self@[k2] }));
            } else {
                assert(before@.contains_key(k2));
                let j = choose|j: int| 0 <= j < b.len() && b[j] == (HashEntry::<K, V>::Occupied { key: k2, value: before@[k2] });
                assert(nb[j] == b[j]);
            }
        }
        assert forall|i1: int, j1: int| 0 <= i1 < nb.len() && 0 <= j1 < nb.len() && (#[trigger] nb[i1] is Occupied) && (#[trigger] nb[j1] is Occupied)
            && Self::key_of(nb[i1]) == Self::key_of(nb[j1]) implies i1 == j1 by {
            if i1 != p && j1 != p {
                assert(b[i1] is Occupied && b[j1] is Occupied);
            } else if i1 == p && j1 != p {
                assert(b[j1] is Occupied);
                assert(before@.contains_key(Self::key_of(b[j1])));
            } else if i1 != p && j1 == p {
                assert(b[i1] is Occupied);
                assert(before@.contains_key(Self::key_of(b[i1])));
            }
        }
    }

    /// Replacing the value of a key in the bucket that holds it keeps the
    /// table well formed.
    proof fn lemma_replace(&self, before: Self, key: K, v: V, p: int)
        requires
            before.wf(),
            0 <= p < before.buckets@.len(),
            before.buckets@[p] == (HashEntry::<K, V>::Occupied { key, value: before@[key] }),
            before@.contains_key(key),
            self.buckets@ == before.buckets@.update(p, (HashEntry::Occupied { key, value: v })),
            self@ == before@.insert(key, v),
            self.used >= before.used,
        ensures
            self.wf(),
            self.tombstones() == before.tombstones(),
    {
        let b = before.buckets@;
        let nb = self.buckets@;
        let cap = b.len() as int;
        lemma_count_update(b, p, (HashEntry::Occupied { key, value: v }));
        assert(self@.dom() =~= before@.dom());
        assert forall|k2: K| self.home(k2) == before.home(k2) by {}
        assert forall|j: int| 0 <= j < nb.len() && (#[trigger] nb[j] is Occupied) implies {
            &&& self@.contains_key(Self::key_of(nb[j]))
            &&& nb[j] == (HashEntry::<K, V>::Occupied { key: Self::key_of(nb[j]), value: self@[Self::key_of(nb[j])] })
            &&& self.reachable(Self::key_of(nb[j]), j)
        } by {
            let kj = Self::key_of(nb[j]);
            let h = before.home(kj);
            assert(b[j] is Occupied);
            assert(Self::key_of(b[j]) == kj);
            assert(before.reachable(kj, j));
            assert forall|t: int| 0 <= t < offset(h, j, cap) implies !(#[trigger] nb[probe(h, t, cap)] is Empty) by {
                assert(!(b[probe(h, t, cap)] is Empty));
            }
            if j != p {
                assert(kj != key);
            }
        }
        assert forall|k2: K| #[trigger] self@.contains_key(k2) implies exists|j: int| 0 <= j < nb.len() && nb[j] == (HashEntry::<K, V>::Occupied { key: k2, value: self@[k2] }) by {
            if k2 == key {
                assert(nb[p] == (HashEntry::<K, V>::Occupied { key: k2, value: self@[k2] }));
            } else {
                let j = choose|j: int| 0 <= j < b.len() && b[j] == (HashEntry::<K, V>::Occupied { key: k2, value: before@[k2] });
                assert(nb[j] == b[j]);
            }
        }
        assert forall|i1: int, j1: int| 0 <= i1 < nb.len() && 0 <= j1 < nb.len() && (#[trigger] nb[i1] is Occupied) && (#[trigger] nb[j1] is Occupied)
            && Self::key_of(nb[i1]) == Self::key_of(nb[j1]) implies i1 == j1 by {
            assert(b[i1] is Occupied && b[j1] is Occupied);
        }
    }

    /// Removes `k`, leaving a tombstone in its bucket, and returns its value.
    /// The probe is that of `get`, and needs its end (`probe_ends`).
    pub fn remove(&mut self, k: &K) -> (r: Option<V>)
        requires
            old(self).wf(),
            old(self).probe_ends(*k),
        ensures
            final(self).wf(),
            final(self)@ == old(self)@.remove(*k),
            r == if old(self)@.contains_key(*k) { Some(old(self)@[*k]) } else { None::<V> },
            final(self).cap_spec() == old(self).cap_spec(),
            old(self)@.contains_key(*k) ==> final(self).used_spec() == old(self).used_spec() - 1
                && final(self).tombstones() == old(self).tombstones() + 1,
            !old(self)@.contains_key(*k) ==> final(self).used_spec() == old(self).used_spec()
                && final(self).tombstones() == old(self).tombstones(),
    {
        let cap = self.buckets.len();
        if cap == 0 {
            proof { assert(self@.dom() =~= self@.remove(*k).dom()); }
            return None;
        }
        let h = Self::home_of(k, cap);
        let mut i: usize = 0;
        while i < cap
            invariant
                self.wf(),
                *self == *old(self),
                self.probe_ends(*k),
                cap == self.buckets@.len(),
                cap > 0,
                h == self.home(*k),
                0 <= h < cap,
                i <= cap,
                forall|t: int| 0 <= t < i ==> !(#[trigger] self.buckets@[probe(h as int, t, cap as int)] is Empty),
                forall|t: int| 0 <= t < i ==> !(self.buckets@[probe(h as int, t, cap as int)] == (HashEntry::<K, V>::Occupied { key: *k, value: self@[*k] })),
            decreases cap - i,
        {
            let p = if h + i < cap { h + i } else { h + i - cap };
            let found: u8 = match &self.buckets[p] {
                HashEntry::Empty => 0,
                HashEntry::TombStone => 1,
                HashEntry::Occupied { key, .. } => if key.key_eq(k) { 2 } else { 1 },
            };
            if found == 0 {
                proof {
                    self.lemma_absent_at_empty(*k, i as int);
                    assert(self@.remove(*k) =~= self@);
                }
                return None;
            } else if found == 2 {
                proof { self.lemma_found(*k, p as int); }
                let ghost before = *self;
                self.used = self.used - 1;
                let mut e = HashEntry::TombStone;
                self.buckets.set_and_swap(p, &mut e);
                self.contents = Ghost(self.contents@.remove(*k));
                proof { self.lemma_tomb(before, *k, p as int); }
                match e {
                    HashEntry::Occupied { value, .. } => {
                        return Some(value);
                    },
                    _ => {
                        proof { assert(false); }
                        return None;
                    },
                }
            }
            i = i + 1;
        }
        proof { self.lemma_probe_exhausted(*k); }
        None
    }

    /// Turning the bucket of a key into a tombstone keeps the table well
    /// formed.
    proof fn lemma_tomb(&self, before: Self, key: K, p: int)
        requires
            before.wf(),
            0 <= p < before.buckets@.len(),
            before.buckets@[p] == (HashEntry::<K, V>::Occupied { key, value: before@[key] }),
            before@.contains_key(key),
            self.buckets@ == before.buckets@.update(p, HashEntry::TombStone),
            self@ == before@.remove(key),
            self.used + 1 == before.used,
        ensures
            self.wf(),
            self.tombstones() == before.tombstones() + 1,
    {
        let b = before.buckets@;
        let nb = self.buckets@;
        let cap = b.len() as int;
        lemma_count_update(b, p, HashEntry::TombStone);
        assert forall|k2: K| self.home(k2) == before.home(k2) by {}
        assert forall|j: int| 0 <= j < nb.len() && (#[trigger] nb[j] is Occupied) implies {
            &&& self@.contains_key(Self::key_of(nb[j]))
            &&& nb[j] == (HashEntry::<K, V>::Occupied { key: Self::key_of(nb[j]), value: self@[Self::key_of(nb[j])] })
            &&& self.reachable(Self::key_of(nb[j]), j)
        } by {
            let kj = Self::key_of(nb[j]);
            let h = before.home(kj);
            assert(b[j] is Occupied);
            assert(j != p);
            assert(kj != key);
            assert(before.reachable(kj, j));
            assert forall|t: int| 0 <= t < offset(h, j, cap) implies !(#[trigger] nb[probe(h, t, cap)] is Empty) by {
                assert(!(b[probe(h, t, cap)] is Empty));
            }
        }
        assert forall|k2: K| #[trigger] self@.contains_key(k2) implies exists|j: int| 0 <= j < nb.len() && nb[j] == (HashEntry::<K, V>::Occupied { key: k2, value: self@[k2] }) by {
            let j = choose|j: int| 0 <= j < b.len() && b[j] == (HashEntry::<K, V>::Occupied { key: k2, value: before@[k2] });
            assert(j != p);
            assert(nb[j] == b[j]);
        }
        assert forall|i1: int, j1: int| 0 <= i1 < nb.len() && 0 <= j1 < nb.len() && (#[trigger] nb[i1] is Occupied) && (#[trigger] nb[j1] is Occupied)
            && Self::key_of(nb[i1]) == Self::key_of(nb[j1]) implies i1 == j1 by {
            assert(b[i1] is Occupied && b[j1] is Occupied);
        }
    }

    /// Empties every bucket, keeping the table size.
    pub fn clear(&mut self)
        requires
            old(self).wf(),
        ensures
            final(self).wf(),
            final(self)@ == Map::<K, V>::empty(),
            final(self).cap_spec() == old(self).cap_spec(),
            final(self).used_spec() == 0,
            final(self).tombstones() == 0,
    {
        let cap = self.buckets.len();
        let fresh = Self::vec_with_none(cap);
        self.buckets = fresh;
        self.used = 0;
        self.contents = Ghost(Map::empty());
        proof { self.lemma_fresh(); }
    }

    /// A table of empty buckets holding nothing is well formed.
    proof fn lemma_fresh(&self)
        requires
            forall|j: int| 0 <= j < self.buckets@.len() ==> #[trigger] self.buckets@[j] is Empty,
            self@ == Map::<K, V>::empty(),
            self.buckets@.len() <= isize::MAX,
        ensures
            self.wf(),
            self.tombstones() == 0,
    {
        lemma_all_none(self.buckets@);
        assert(self@.dom() =~= Set::<K>::empty());
    }

    /// Use of the table in percent, by the entry counter.
    fn usage(&self) -> (r: usize)
        requires
            self.cap_spec() > 0,
            self.used_spec() * 100 <= usize::MAX,
        ensures
            r == (self.used_spec() * 100) / self.cap_spec(),
    {
        self.used * 100 / self.buckets.len()
    }

    /// Moves every entry into a fresh table, doubled in size until the use
    /// is below the low watermark; this drops all tombstones.
    fn rehash(&mut self)
        requires
            old(self).wf(),
            old(self).cap_spec() > 0,
            old(self).used_spec() == old(self)@.len(),
            old(self).used_spec() * 100 <= usize::MAX,
        ensures
            final(self).wf(),
            final(self)@ == old(self)@,
            final(self).used_spec() == old(self).used_spec(),
            final(self).cap_spec() == grown_cap(old(self).cap_spec(), old(self).used_spec()),
            final(self).tombstones() == 0,
            2 * final(self).used_spec() < final(self).cap_spec(),
    {
        let used = self.used;
        let mut cap = self.buckets.len();
        let ghost cap0 = cap;
        while (used * 100) / cap >= LOW_WATERMARK
            invariant
                cap > 0,
                used * 100 <= usize::MAX,
                grown_cap(cap as nat, used as nat) == grown_cap(cap0 as nat, used as nat),
                cap <= cap0 || cap <= 4 * used,
                cap0 <= isize::MAX,
            decreases used * 100 + 1 - cap,
        {
            proof { lemma_grow_measure(cap as nat, used as nat); }
            cap = cap * 2;
        }
        proof { lemma_below_low_watermark(used as nat, cap as nat); }
        let mut old_buckets = Self::vec_with_none(cap);
        std::mem::swap(&mut self.buckets, &mut old_buckets);
        let ghost m_old = self@;
        let ghost before = *self;
        proof {
            assert(old_buckets@ == old(self).buckets@);
        }
        self.used = 0;
        self.contents = Ghost(Map::empty());
        proof { self.lemma_fresh(); }
        while old_buckets.len() > 0
            invariant
                self.wf(),
                self.cap_spec() == cap,
                self.tombstones() == 0,
                self.used == self@.len(),
                m_old == old(self)@,
                m_old.dom().finite(),
                m_old.len() == used,
                2 * used < cap,
                forall|k: K| #[trigger] self@.contains_key(k) ==> m_old.contains_key(k) && self@[k] == m_old[k],
                forall|j: int| 0 <= j < old_buckets@.len() && (#[trigger] old_buckets@[j] is Occupied) ==> {
                    &&& m_old.contains_key(Self::key_of(old_buckets@[j]))
                    &&& old_buckets@[j] == (HashEntry::<K, V>::Occupied { key: Self::key_of(old_buckets@[j]), value: m_old[Self::key_of(old_buckets@[j])] })
                    &&& !self@.contains_key(Self::key_of(old_buckets@[j]))
                },
                forall|i: int, j: int| 0 <= i < old_buckets@.len() && 0 <= j < old_buckets@.len() && (#[trigger] old_buckets@[i] is Occupied) && (#[trigger] old_buckets@[j] is Occupied)
                    && Self::key_of(old_buckets@[i]) == Self::key_of(old_buckets@[j]) ==> i == j,
                forall|k: K| #[trigger] m_old.contains_key(k) ==> self@.contains_key(k)
                    || exists|j: int| 0 <= j < old_buckets@.len() && old_buckets@[j] == (HashEntry::<K, V>::Occupied { key: k, value: m_old[k] }),
            decreases old_buckets@.len(),
        {
            let ghost ob = old_buckets@;
            let ghost last = ob.len() - 1;
            let e = old_buckets.pop().unwrap();
            proof {
                assert(old_buckets@ =~= ob.drop_last());
                assert(e == ob[last]);
                vstd::set_lib::lemma_len_subset(self@.dom(), m_old.dom());
            }
            let ghost s_before = self@;
            match e {
                HashEntry::Occupied { key, value } => {
                    let ghost v = value;
                    proof {
                        assert(ob[last] is Occupied);
                        assert(Self::key_of(ob[last]) == key);
                    }
                    self.insert_fresh(key, value);
                    proof {
                        assert forall|k: K| #[trigger] m_old.contains_key(k) implies self@.contains_key(k)
                            || exists|j: int| 0 <= j < old_buckets@.len() && old_buckets@[j] == (HashEntry::<K, V>::Occupied { key: k, value: m_old[k] }) by {
                            if k != key && !s_before.contains_key(k) {
                                let j = choose|j: int| 0 <= j < ob.len() && ob[j] == (HashEntry::<K, V>::Occupied { key: k, value: m_old[k] });
                                assert(ob[j] is Occupied);
                                assert(j != last);
                                assert(old_buckets@[j] == ob[j]);
                            }
                        }
                        assert forall|j: int| 0 <= j < old_buckets@.len() && (#[trigger] old_buckets@[j] is Occupied) implies
                            !self@.contains_key(Self::key_of(old_buckets@[j])) by {
                            assert(ob[j] is Occupied);
                            assert(j != last);
                        }
                    }
                },
                _ => {
                    proof {
                        assert forall|k: K| #[trigger] m_old.contains_key(k) implies self@.contains_key(k)
                            || exists|j: int| 0 <= j < old_buckets@.len() && old_buckets@[j] == (HashEntry::<K, V>::Occupied { key: k, value: m_old[k] }) by {
                            if !self@.contains_key(k) {
                                let j = choose|j: int| 0 <= j < ob.len() && ob[j] == (HashEntry::<K, V>::Occupied { key: k, value: m_old[k] });
                                assert(ob[j] is Occupied);
                                assert(j != last);
                                assert(old_buckets@[j] == ob[j]);
                            }
                        }
                    }
                },
            }
        }
        proof {
            assert(self@ =~= m_old);
        }
    }

    /// Inserts `value` under `key` and returns the value `key` had. A map
    /// without a table first gets one of `INIT_SIZE` buckets; a map whose
    /// use has reached the high watermark is rehashed first. The use
    /// counter goes up on every insert, a replacement too, and the rehash
    /// holds it to be the number of entries, so a rehash is only done on a
    /// map where the two agree; tombstones are not reused, so a key that is
    /// new needs an empty bucket.
    pub fn insert(&mut self, key: K, value: V) -> (r: Option<V>)
        requires
            old(self).wf(),
            old(self).used_spec() * 100 + 100 <= usize::MAX,
            old(self).needs_rehash() ==> old(self).used_spec() == old(self)@.len(),
            !old(self).needs_rehash() && old(self).cap_spec() > 0 ==> old(self)@.contains_key(key) || old(self).free_slots() > 0,
        ensures
            final(self).wf(),
            final(self)@ == old(self)@.insert(key, value),
            r == if old(self)@.contains_key(key) { Some(old(self)@[key]) } else { None::<V> },
            final(self).used_spec() == old(self).used_spec() + 1,
            final(self).cap_spec() == if old(self).cap_spec() == 0 {
                INIT_SIZE as nat
            } else if old(self).needs_rehash() {
                grown_cap(old(self).cap_spec(), old(self).used_spec())
            } else {
                old(self).cap_spec()
            },
            final(self).tombstones() == if old(self).cap_spec() == 0 || old(self).needs_rehash() {
                0
            } else {
                old(self).tombstones()
            },
    {
        if self.buckets.len() == 0 {
            proof {
                lemma_count_bounds(self.buckets@);
                assert(self@.dom().len() == 0);
                self@.dom().lemma_len0_is_empty();
                assert(self@ =~= Map::<K, V>::empty());
            }
            let fresh = Self::vec_with_none(INIT_SIZE);
            self.buckets = fresh;
            proof { self.lemma_fresh(); }
        } else if self.usage() >= HIGH_WATERMARK {
            self.rehash();
        }
        self.insert_fresh(key, value)
    }

    /// Number of buckets.
    pub fn cap(&self) -> (r: usize)
        ensures
            r == self.cap_spec(),
    {
        self.buckets.len()
    }
}

/// After an insert, looking the key up gives the value inserted, and other
/// keys give what they gave before; after a remove, the key is gone.
pub proof fn lemma_insert_get<K, V>(m: Map<K, V>, k: K, v: V, other: K)
    requires
        other != k,
    ensures
        m.insert(k, v).contains_key(k),
        m.insert(k, v)[k] == v,
        m.insert(k, v).contains_key(other) == m.contains_key(other),
        m.contains_key(other) ==> m.insert(k, v)[other] == m[other],
        !m.remove(k).contains_key(k),
{
}

} // verus!
