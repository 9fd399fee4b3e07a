//! The transposition table: a power-of-two array of entries indexed by the low bits of the
//! Zobrist key, with a replacement policy that favours exact, deeper and fresher entries.
use vstd::prelude::*;

use crate::types::Move;
use crate::zobrist::ZKey;

verus! {

/// How many generations old an entry of age `entry` is at age `current`, counted modulo 32.
pub open spec fn age_delta_spec(current: u8, entry: u8) -> u8 {
    vstd::wrapping::u8_specs::wrapping_sub(current, entry) & 31u8
}

/// How many generations old an entry of age `entry` is at age `current`, counted modulo 32.
pub fn age_delta(current: u8, entry: u8) -> (r: u8)
    ensures
        r == age_delta_spec(current, entry),
{
    current.wrapping_sub(entry) & 0b1_1111
}

/// What a stored value is known to be: nothing, at least, at most, or exactly the score.
#[derive(Copy, Clone, Eq, PartialEq, Debug, Structural)]
pub enum BoundType {
    NoBound,
    Lower,
    Upper,
    Exact,
}

impl BoundType {
    /// The two bits that stand for the bound.
    pub open spec fn bits(self) -> u8 {
        match self {
            BoundType::NoBound => 0,
            BoundType::Lower => 1,
            BoundType::Upper => 2,
            BoundType::Exact => 3,
        }
    }

    /// The bound the two bits `b` stand for.
    pub open spec fn from_bits(b: u8) -> BoundType {
        if b == 0 {
            BoundType::NoBound
        } else if b == 1 {
            BoundType::Lower
        } else if b == 2 {
            BoundType::Upper
        } else {
            BoundType::Exact
        }
    }
}

/// Node information packed in a byte: bits 0-1 the bound, bit 2 the principal variation flag,
/// bits 3-7 the age.
#[derive(Copy, Clone, Eq, PartialEq, Debug, Structural)]
pub struct NodeInfo(u8);

/// The byte packing `age`, `pv_node` and `bound`; the age keeps its low five bits.
pub open spec fn node_info_bits(age: u8, pv_node: bool, bound: BoundType) -> u8 {
    bound.bits() | ((if pv_node {
        1u8
    } else {
        0u8
    }) << 2u8) | (age << 3u8)
}

/// Reading back what `node_info_bits` packs.
proof fn lemma_node_info_bits(age: u8, pv: u8, bound: u8)
    by (bit_vector)
    requires
        pv < 2,
        bound < 4,
    ensures
        (bound | (pv << 2u8) | (age << 3u8)) >> 3u8 == age & 31u8,
        ((bound | (pv << 2u8) | (age << 3u8)) & 4u8 != 0u8) == (pv == 1u8),
        (bound | (pv << 2u8) | (age << 3u8)) & 3u8 == bound,
        0u8 >> 3u8 == 0u8,
        0u8 & 4u8 == 0u8,
        0u8 & 3u8 == 0u8,
{
}

impl NodeInfo {
    /// The packed byte.
    pub closed spec fn bits(self) -> u8 {
        self.0
    }

    /// The age, the principal variation flag and the bound the byte holds.
    pub open spec fn age_of(self) -> u8 {
        self.bits() >> 3u8
    }

    pub open spec fn pv_of(self) -> bool {
        self.bits() & 4u8 != 0u8
    }

    pub open spec fn bound_of(self) -> BoundType {
        BoundType::from_bits(self.bits() & 3u8)
    }

    /// No information: age 0, not a principal variation node, no bound.
    pub fn empty() -> (r: NodeInfo)
        ensures
            r.bits() == 0,
            r.age_of() == 0,
            !r.pv_of(),
            r.bound_of() == BoundType::NoBound,
    {
        proof {
            lemma_node_info_bits(0, 0, 0);
        }
        NodeInfo(0)
    }

    /// Packs the age (its low five bits), the principal variation flag and the bound.
    #[inline(always)]
    pub fn new(age: u8, pv_node: bool, bound: BoundType) -> (r: NodeInfo)
        ensures
            r == NodeInfo::new_spec(age, pv_node, bound),
            r.bits() == node_info_bits(age, pv_node, bound),
            r.age_of() == age % 32,
            r.pv_of() == pv_node,
            r.bound_of() == bound,
    {
        let b: u8 = match bound {
            BoundType::NoBound => 0,
            BoundType::Lower => 1,
            BoundType::Upper => 2,
            BoundType::Exact => 3,
        };
        let pv: u8 = if pv_node {
            1
        } else {
            0
        };
        let mut info = 0u8;
        info = info | b;
        info = info | (pv << 2);
        info = info | (age << 3);
        proof {
            lemma_node_info_bits(age, pv, b);
            crate::tt::lemma_or_zero(b);
            assert(age & 31u8 == age % 32) by (bit_vector);
        }
        NodeInfo(info)
    }

    #[inline(always)]
    pub fn age(&self) -> (r: u8)
        ensures
            r == self.age_of(),
    {
        self.0 >> 3
    }

    #[inline(always)]
    pub fn is_pv(&self) -> (r: bool)
        ensures
            r == self.pv_of(),
    {
        self.0 & 0b100 != 0
    }

    #[inline(always)]
    pub fn bound_type(&self) -> (r: BoundType)
        ensures
            r == self.bound_of(),
    {
        match self.0 & 0b11 {
            0b00 => BoundType::NoBound,
            0b01 => BoundType::Lower,
            0b10 => BoundType::Upper,
            _ => BoundType::Exact,
        }
    }
}

proof fn lemma_or_zero(b: u8)
    ensures
        0u8 | b == b,
{
    assert(0u8 | b == b) by (bit_vector);
}

/// An entry of the table: the full key, the search depth, the best move, the node information,
/// the score found by the search and the static evaluation.
#[derive(Copy, Clone, Eq, PartialEq, Debug, Structural)]
pub struct TTEntry {
    key: ZKey,
    depth: u8,
    mv: Move,
    node_info: NodeInfo,
    value: i16,
    eval: i16,
}

impl TTEntry {
    pub closed spec fn key_of(self) -> u64 {
        self.key.0
    }

    pub closed spec fn depth_of(self) -> u8 {
        self.depth
    }

    pub closed spec fn move_of(self) -> Move {
        self.mv
    }

    pub closed spec fn info_of(self) -> NodeInfo {
        self.node_info
    }

    pub closed spec fn value_of(self) -> i16 {
        self.value
    }

    pub closed spec fn eval_of(self) -> i16 {
        self.eval
    }

    /// The entry with the given fields.
    pub closed spec fn make(
        key: u64,
        depth: u8,
        mv: Move,
        node_info: NodeInfo,
        value: i16,
        eval: i16,
    ) -> TTEntry {
        TTEntry { key: ZKey(key), depth, mv, node_info, value, eval }
    }

    /// The fields of a made entry are those it was made with.
    pub proof fn lemma_make(key: u64, depth: u8, mv: Move, node_info: NodeInfo, value: i16, eval: i16)
        ensures
            ({
                let e = TTEntry::make(key, depth, mv, node_info, value, eval);
                &&& e.key_of() == key
                &&& e.depth_of() == depth
                &&& e.move_of() == mv
                &&& e.info_of() == node_info
                &&& e.value_of() == value
                &&& e.eval_of() == eval
            }),
    {
    }

    /// The empty entry: key 0, the null move, no information, zero scores.
    pub fn empty() -> (r: TTEntry)
        ensures
            r == TTEntry::empty_spec(),
    {
        TTEntry {
            key: ZKey(0),
            depth: 0,
            mv: Move::null(),
            node_info: NodeInfo::empty(),
            value: 0,
            eval: 0,
        }
    }

    /// Whether the entry is empty: key 0 marks an unused slot.
    #[inline(always)]
    pub fn is_empty(&self) -> (r: bool)
        ensures
            r == (self.key_of() == 0),
    {
        self.key.0 == 0
    }

    #[inline(always)]
    pub fn new(key: ZKey, depth: u8, mv: Move, node_info: NodeInfo, value: i16, eval: i16) -> (r:
        TTEntry)
        ensures
            r == TTEntry::make(key.0, depth, mv, node_info, value, eval),
    {
        TTEntry { key, depth, mv, node_info, value, eval }
    }

    /// Replaces everything but the key.
    #[inline(always)]
    pub fn update(&mut self, depth: u8, mv: Move, node_info: NodeInfo, value: i16, eval: i16)
        ensures
            *final(self) == TTEntry::make(old(self).key_of(), depth, mv, node_info, value, eval),
    {
        self.depth = depth;
        self.mv = mv;
        self.node_info = node_info;
        self.value = value;
        self.eval = eval;
    }

    #[inline(always)]
    pub fn age(&self) -> (r: u8)
        ensures
            r == self.info_of().age_of(),
    {
        self.node_info.age()
    }

    #[inline(always)]
    pub fn is_pv(&self) -> (r: bool)
        ensures
            r == self.info_of().pv_of(),
    {
        self.node_info.is_pv()
    }

    #[inline(always)]
    pub fn bound_type(&self) -> (r: BoundType)
        ensures
            r == self.info_of().bound_of(),
    {
        self.node_info.bound_type()
    }
}

/// What a probe finds: an entry's fields without its key.
#[derive(Copy, Clone, Eq, PartialEq, Debug, Structural)]
pub struct TTProbe {
    pub depth: u8,
    pub mv: Move,
    pub node_info: NodeInfo,
    pub value: i16,
    pub eval: i16,
}

/// What a probe of an entry gives.
pub open spec fn probe_of(e: TTEntry) -> TTProbe {
    TTProbe {
        depth: e.depth_of(),
        mv: e.move_of(),
        node_info: e.info_of(),
        value: e.value_of(),
        eval: e.eval_of(),
    }
}

/// The size of an entry in bytes.
pub const ENTRY_BYTES: usize = 16;

/// The bytes `mb` megabytes make, saturating at the largest `usize`.
pub open spec fn table_bytes(mb: usize) -> nat {
    if mb as nat * 1048576 > usize::MAX as nat {
        usize::MAX as nat
    } else {
        mb as nat * 1048576
    }
}

/// The largest power of two that is at most `n` (1 when `n` is 0), and its exponent.
pub open spec fn floor_pow2(n: nat) -> nat
    decreases n,
{
    if n < 2 {
        1
    } else {
        2 * floor_pow2(n / 2)
    }
}

/// Whether `n` is a power of two.
pub open spec fn is_pow2(n: nat) -> bool
    decreases n,
{
    if n == 1 {
        true
    } else if n < 1 || n % 2 == 1 {
        false
    } else {
        is_pow2(n / 2)
    }
}

proof fn lemma_floor_pow2(n: nat)
    ensures
        is_pow2(floor_pow2(n)),
        1 <= floor_pow2(n),
        n >= 1 ==> floor_pow2(n) <= n,
        n >= 1 ==> n < 2 * floor_pow2(n),
    decreases n,
{
    if n >= 2 {
        lemma_floor_pow2(n / 2);
        assert((2 * floor_pow2(n / 2)) / 2 == floor_pow2(n / 2));
    }
}

pub struct TranspositionTable {
    entries: Vec<TTEntry>,
    age: u8,
}

impl TranspositionTable {
    /// The table has a power of two of slots.
    pub closed spec fn wf(self) -> bool {
        &&& is_pow2(self.entries@.len())
        &&& 1 <= self.entries@.len() <= usize::MAX
    }

    /// The entries, slot by slot.
    pub closed spec fn slots(self) -> Seq<TTEntry> {
        self.entries@
    }

    /// The current age (search generation).
    pub closed spec fn age_of(self) -> u8 {
        self.age
    }

    /// The slot of key `key`: its low bits.
    pub open spec fn slot(self, key: u64) -> int {
        ((key as usize) & ((self.slots().len() - 1) as usize)) as int
    }

    /// Whether `store` replaces entry `e` with a new one for `key` of depth `depth` and bound
    /// `bound`: an exact bound, another key, a deeper search or an older entry replaces it.
    pub open spec fn replaces(self, e: TTEntry, key: u64, depth: u8, bound: BoundType) -> bool {
        ||| bound == BoundType::Exact
        ||| key != e.key_of()
        ||| depth > e.depth_of()
        ||| age_delta_spec(self.age_of(), e.info_of().age_of()) != 0
    }

    /// A table of about `mb` megabytes: the largest power of two of entries that fits (at least
    /// one), all empty, at age 0.
    pub fn new(mb: usize) -> (r: TranspositionTable)
        ensures
            r.slots().len() == floor_pow2(table_bytes(mb) / (ENTRY_BYTES as nat)),
            forall|i: int| 0 <= i < r.slots().len() ==> #[trigger] r.slots()[i] == TTEntry::empty_spec(),
            r.age_of() == 0,
            r.wf(),
    {
        let bytes: usize = if mb > usize::MAX / (1024 * 1024) {
            proof {
                let m = mb as int;
                let big = usize::MAX as int;
                assert(m * 1048576 > big) by (nonlinear_arith)
                    requires
                        m > big / 1048576,
                ;
            }
            usize::MAX
        } else {
            proof {
                let m = mb as int;
                let big = usize::MAX as int;
                assert(m * 1048576 <= big) by (nonlinear_arith)
                    requires
                        m <= big / 1048576,
                ;
            }
            mb * (1024 * 1024)
        };
        let raw_count = bytes / ENTRY_BYTES;
        // The largest power of two no larger than the raw count, and at least one entry
        let mut count: usize = 1;
        let ghost n = raw_count as nat;
        proof {
            lemma_floor_pow2(n);
        }
        while count <= raw_count / 2
            invariant
                1 <= count,
                count * floor_pow2(n / (count as nat)) == floor_pow2(n),
                is_pow2(count as nat),
                count <= raw_count || count == 1,
                n == raw_count,
            decreases raw_count - count,
        {
            proof {
                let c = count as nat;
                assert(n / c >= 2) by (nonlinear_arith)
                    requires
                        c >= 1,
                        c <= n / 2,
                ;
                assert(n / (2 * c) == (n / c) / 2) by (nonlinear_arith)
                    requires
                        c >= 1,
                ;
                assert(floor_pow2(n / c) == 2 * floor_pow2((n / c) / 2));
                let f = floor_pow2(n / c);
                let g = floor_pow2(n / (2 * c));
                assert(f == 2 * g);
                assert((2 * c) * g == c * f) by (nonlinear_arith)
                    requires
                        f == 2 * g,
                ;
                assert(is_pow2(2 * c) == is_pow2(c)) by {
                    assert((2 * c) % 2 == 0);
                    assert((2 * c) / 2 == c);
                }
                assert(2 * c <= n) by (nonlinear_arith)
                    requires
                        c <= n / 2,
                ;
            }
            count = count * 2;
        }
        proof {
            let c = count as nat;
            assert(n / c < 2) by (nonlinear_arith)
                requires
                    c >= 1,
                    c > n / 2,
            ;
            assert(floor_pow2(n / c) == 1);
            assert(bytes as nat == table_bytes(mb));
        }
        let mut entries: Vec<TTEntry> = Vec::new();
        let mut i: usize = 0;
        while i < count
            invariant
                i <= count,
                entries@.len() == i,
                forall|j: int| 0 <= j < i ==> #[trigger] entries@[j] == TTEntry::empty_spec(),
            decreases count - i,
        {
            entries.push(TTEntry::empty());
            i = i + 1;
        }
        TranspositionTable { entries, age: 0 }
    }

    /// The number of slots.
    pub fn num_entries(&self) -> (r: usize)
        ensures
            r == self.slots().len(),
    {
        self.entries.len()
    }

    /// The slot of `key`.
    #[inline(always)]
    pub fn index(&self, key: ZKey) -> (r: usize)
        requires
            self.wf(),
        ensures
            r == self.slot(key.0),
            r < self.slots().len(),
    {
        let mask = self.entries.len() - 1;
        let k = key.0 as usize;
        assert(k & mask <= mask) by (bit_vector);
        k & mask
    }

    /// Empties every entry and resets the age.
    pub fn clear(&mut self)
        requires
            old(self).wf(),
        ensures
            final(self).wf(),
            final(self).slots().len() == old(self).slots().len(),
            forall|i: int|
                0 <= i < final(self).slots().len() ==> #[trigger] final(self).slots()[i]
                    == TTEntry::empty_spec(),
            final(self).age_of() == 0,
    {
        let n = self.entries.len();
        let mut entries: Vec<TTEntry> = Vec::new();
        let mut i: usize = 0;
        while i < n
            invariant
                i <= n,
                entries@.len() == i,
                forall|j: int| 0 <= j < i ==> #[trigger] entries@[j] == TTEntry::empty_spec(),
            decreases n - i,
        {
            entries.push(TTEntry::empty());
            i = i + 1;
        }
        self.entries = entries;
        self.age = 0;
    }

    /// Moves on to the next search generation (the age wraps at 256).
    /// The age that new entries are stored with.
    pub fn current_age(&self) -> (r: u8)
        ensures
            r == self.age_of(),
    {
        self.age
    }

    pub fn increment_age(&mut self)
        requires
            old(self).wf(),
        ensures
            final(self).wf(),
            final(self).slots() == old(self).slots(),
            final(self).age_of() == vstd::wrapping::u8_specs::wrapping_add(old(self).age_of(), 1),
    {
        self.age = self.age.wrapping_add(1);
    }

    /// The stored fields for `key`, when its slot holds a non-empty entry with that key.
    pub open spec fn probe_spec(self, key: u64) -> Option<TTProbe> {
        let e = self.slots()[self.slot(key)];
        if e.key_of() == 0 || e.key_of() != key {
            None
        } else {
            Some(probe_of(e))
        }
    }

    /// Looks `key` up; see `probe_spec`.
    pub fn probe(&self, key: ZKey) -> (r: Option<TTProbe>)
        requires
            self.wf(),
        ensures
            r == self.probe_spec(key.0),
    {
        let entry = &self.entries[self.index(key)];
        if entry.is_empty() || entry.key != key {
            return None;
        }
        Some(
            TTProbe {
                depth: entry.depth,
                mv: entry.mv,
                node_info: entry.node_info,
                value: entry.value,
                eval: entry.eval,
            },
        )
    }

    /// The slots after storing: the slot of `key` gets the new entry, stamped with the current
    /// age, when `replaces` says so; every other slot is unchanged.
    pub open spec fn stored(
        self,
        key: u64,
        depth: u8,
        mv: Move,
        bound: BoundType,
        is_pv: bool,
        value: i16,
        eval: i16,
    ) -> Seq<TTEntry> {
        let e = self.slots()[self.slot(key)];
        if self.replaces(e, key, depth, bound) {
            self.slots().update(
                self.slot(key),
                TTEntry::make(key, depth, mv, NodeInfo::new_spec(self.age_of(), is_pv, bound), value, eval),
            )
        } else {
            self.slots()
        }
    }

    /// Stores a search result for `key`; see `stored`.
    pub fn store(
        &mut self,
        key: ZKey,
        depth: u8,
        mv: Move,
        bound: BoundType,
        is_pv: bool,
        value: i16,
        eval: i16,
    )
        requires
            old(self).wf(),
        ensures
            final(self).wf(),
            final(self).slots() == old(self).stored(key.0, depth, mv, bound, is_pv, value, eval),
            final(self).age_of() == old(self).age_of(),
    {
        let node_info = NodeInfo::new(self.age, is_pv, bound);
        let index = self.index(key);
        let entry = self.entries[index];

        // Replace the less valuable entry
        if bound == BoundType::Exact || key != entry.key || depth > entry.depth || age_delta(
            self.age,
            entry.age(),
        ) != 0 {
            let mut e = entry;
            e.update(depth, mv, node_info, value, eval);
            e.key = key;
            self.entries.set(index, e);
        }
    }
}

impl TTEntry {
    /// The empty entry.
    pub closed spec fn empty_spec() -> TTEntry {
        TTEntry {
            key: ZKey(0),
            depth: 0,
            mv: Move::null_spec(),
            node_info: NodeInfo(0),
            value: 0,
            eval: 0,
        }
    }

    /// The empty entry holds key 0, so a slot holding it answers no probe; its other fields
    /// are zero and the null move.
    pub proof fn lemma_empty_entry()
        ensures
            TTEntry::empty_spec().key_of() == 0,
            TTEntry::empty_spec().depth_of() == 0,
            TTEntry::empty_spec().move_of() == Move::null_spec(),
            TTEntry::empty_spec().value_of() == 0,
            TTEntry::empty_spec().eval_of() == 0,
    {
    }
}

impl NodeInfo {
    /// The node information `new` packs.
    pub closed spec fn new_spec(age: u8, pv_node: bool, bound: BoundType) -> NodeInfo {
        NodeInfo(node_info_bits(age, pv_node, bound))
    }
}


/// A probe right after a store finds the key: the new result when the store replaced the
/// entry, and otherwise the entry that was kept, which already held that key.
pub proof fn lemma_store_then_probe(
    t: TranspositionTable,
    t2: TranspositionTable,
    key: u64,
    depth: u8,
    mv: Move,
    bound: BoundType,
    is_pv: bool,
    value: i16,
    eval: i16,
)
    requires
        t.wf(),
        key != 0,
        t2.slots() == t.stored(key, depth, mv, bound, is_pv, value, eval),
    ensures
        ({
            let e = t.slots()[t.slot(key)];
            t2.probe_spec(key) == Some(
                if t.replaces(e, key, depth, bound) {
                    TTProbe {
                        depth,
                        mv,
                        node_info: NodeInfo::new_spec(t.age_of(), is_pv, bound),
                        value,
                        eval,
                    }
                } else {
                    probe_of(e)
                },
            )
        }),
{
    let e = t.slots()[t.slot(key)];
    TTEntry::lemma_make(key, depth, mv, NodeInfo::new_spec(t.age_of(), is_pv, bound), value, eval);
    let k = key as usize;
    let mask = (t.slots().len() - 1) as usize;
    assert(k & mask <= mask) by (bit_vector);
}

/// A store leaves the keys of every other slot as they were.
pub proof fn lemma_store_keeps_others(
    t: TranspositionTable,
    t2: TranspositionTable,
    key: u64,
    depth: u8,
    mv: Move,
    bound: BoundType,
    is_pv: bool,
    value: i16,
    eval: i16,
    other: u64,
)
    requires
        t.wf(),
        t2.slots() == t.stored(key, depth, mv, bound, is_pv, value, eval),
        t.slot(other) != t.slot(key),
    ensures
        t2.probe_spec(other) == t.probe_spec(other),
{
    let k = key as usize;
    let o = other as usize;
    let mask = (t.slots().len() - 1) as usize;
    assert(k & mask <= mask && o & mask <= mask) by (bit_vector);
}
} // verus!
