use vstd::prelude::*;

use std::collections::HashMap;

verus! {

broadcast use vstd::std_specs::hash::group_hash_axioms;

/// Number of slots in each buffer space: valid indices are `0 .. 2^23`.
pub const BUFFER_SIZE: u64 = 8388608;

/// The most times a `while` condition is evaluated.
pub const MAX_WHILE_EVALUATIONS: u64 = 1048576;

/// The value a slot of `m` holds: what was last stored there, or `zero`
/// when nothing was or the index is out of range.
pub open spec fn slot_of<V>(m: Map<u64, V>, zero: V, index: int) -> V {
    if 0 <= index < BUFFER_SIZE && m.contains_key(index as u64) {
        m[index as u64]
    } else {
        zero
    }
}

/// The buffer memory of an environment: one `megabuf` space per pool, which
/// no other pool sees, and one `gmegabuf` space shared by all pools. Slots
/// are created on first write; a slot never written reads as `zero`.
pub struct Memory<V> {
    megabufs: HashMap<u64, HashMap<u64, V>>,
    gmegabuf: HashMap<u64, V>,
    zero: V,
}

impl<V: Copy> Memory<V> {
    pub closed spec fn zero(&self) -> V {
        self.zero
    }

    /// The contents of pool `pool`'s `megabuf`.
    pub closed spec fn megabuf_map(&self, pool: u64) -> Map<u64, V> {
        if self.megabufs@.contains_key(pool) {
            self.megabufs@[pool]@
        } else {
            Map::empty()
        }
    }

    pub closed spec fn gmegabuf_map(&self) -> Map<u64, V> {
        self.gmegabuf@
    }

    /// What reading slot `index` of pool `pool`'s `megabuf` gives.
    pub open spec fn megabuf_slot(&self, pool: u64, index: int) -> V {
        slot_of(self.megabuf_map(pool), self.zero(), index)
    }

    /// What reading slot `index` of `gmegabuf` gives.
    pub open spec fn gmegabuf_slot(&self, index: int) -> V {
        slot_of(self.gmegabuf_map(), self.zero(), index)
    }

    /// `after` is `before` with `value` stored at `index` of pool `pool`'s
    /// `megabuf`, where `index` is in range, and equal to `before` otherwise.
    pub open spec fn megabuf_written(before: Self, after: Self, pool: u64, index: int, value: V) -> bool {
        &&& after.zero() == before.zero()
        &&& forall|i: int| #[trigger] after.gmegabuf_slot(i) == before.gmegabuf_slot(i)
        &&& forall|p: u64, i: int|
            #[trigger] after.megabuf_slot(p, i) == if p == pool && i == index && 0 <= index < BUFFER_SIZE {
                value
            } else {
                before.megabuf_slot(p, i)
            }
    }

    /// `after` is `before` with `value` stored at `index` of `gmegabuf`,
    /// where `index` is in range, and equal to `before` otherwise.
    pub open spec fn gmegabuf_written(before: Self, after: Self, index: int, value: V) -> bool {
        &&& after.zero() == before.zero()
        &&& forall|p: u64, i: int| #[trigger] after.megabuf_slot(p, i) == before.megabuf_slot(p, i)
        &&& forall|i: int|
            #[trigger] after.gmegabuf_slot(i) == if i == index && 0 <= index < BUFFER_SIZE {
                value
            } else {
                before.gmegabuf_slot(i)
            }
    }

    /// An empty memory whose slots all read as `zero`.
    pub fn new(zero: V) -> (r: Memory<V>)
        ensures
            r.zero() == zero,
            forall|p: u64, i: int| #[trigger] r.megabuf_slot(p, i) == zero,
            forall|i: int| #[trigger] r.gmegabuf_slot(i) == zero,
    {
        Memory { megabufs: HashMap::new(), gmegabuf: HashMap::new(), zero }
    }

    fn read_slot(m: &HashMap<u64, V>, zero: V, index: i64) -> (r: V)
        ensures
            r == slot_of(m@, zero, index as int),
    {
        if index < 0 || index >= BUFFER_SIZE as i64 {
            return zero;
        }
        match m.get(&(index as u64)) {
            Some(v) => *v,
            None => zero,
        }
    }

    /// Reads slot `index` of pool `pool`'s `megabuf`.
    pub fn read_megabuf(&self, pool: u64, index: i64) -> (r: V)
        ensures
            r == self.megabuf_slot(pool, index as int),
    {
        match self.megabufs.get(&pool) {
            Some(m) => Self::read_slot(m, self.zero, index),
            None => {
                assert(self.megabuf_map(pool) == Map::<u64, V>::empty());
                self.zero
            },
        }
    }

    /// Reads slot `index` of `gmegabuf`.
    pub fn read_gmegabuf(&self, index: i64) -> (r: V)
        ensures
            r == self.gmegabuf_slot(index as int),
    {
        Self::read_slot(&self.gmegabuf, self.zero, index)
    }

    /// Stores `value` at slot `index` of pool `pool`'s `megabuf`; a write out
    /// of range is dropped.
    pub fn write_megabuf(&mut self, pool: u64, index: i64, value: V)
        ensures
            Self::megabuf_written(*old(self), *final(self), pool, index as int, value),
    {
        if index < 0 || index >= BUFFER_SIZE as i64 {
            return;
        }
        let mut space = match self.megabufs.remove(&pool) {
            Some(m) => m,
            None => HashMap::new(),
        };
        assert(space@ == old(self).megabuf_map(pool));
        space.insert(index as u64, value);
        self.megabufs.insert(pool, space);
        assert forall|p: u64, i: int| #[trigger] self.megabuf_slot(p, i) == if p == pool && i == index && 0 <= index < BUFFER_SIZE {
            value
        } else {
            old(self).megabuf_slot(p, i)
        } by {
            if p != pool {
                assert(self.megabuf_map(p) == old(self).megabuf_map(p));
            }
        }
    }

    /// Stores `value` at slot `index` of `gmegabuf`; a write out of range is
    /// dropped.
    pub fn write_gmegabuf(&mut self, index: i64, value: V)
        ensures
            Self::gmegabuf_written(*old(self), *final(self), index as int, value),
    {
        if index < 0 || index >= BUFFER_SIZE as i64 {
            return;
        }
        self.gmegabuf.insert(index as u64, value);
        assert forall|p: u64, i: int| #[trigger] self.megabuf_slot(p, i) == old(self).megabuf_slot(p, i) by {
            assert(self.megabuf_map(p) == old(self).megabuf_map(p));
        }
    }
}

/// A `megabuf` write under one pool is seen by no other pool and not through
/// `gmegabuf`; a `gmegabuf` write is seen through no pool's `megabuf`.
pub proof fn lemma_buffer_isolation<V: Copy>(
    before: Memory<V>,
    after_mega: Memory<V>,
    after_global: Memory<V>,
    pool_a: u64,
    pool_b: u64,
    index: int,
    value: V,
    j: int,
)
    requires
        Memory::megabuf_written(before, after_mega, pool_a, index, value),
        Memory::gmegabuf_written(before, after_global, index, value),
        pool_a != pool_b,
    ensures
        after_mega.megabuf_slot(pool_b, j) == before.megabuf_slot(pool_b, j),
        after_mega.gmegabuf_slot(j) == before.gmegabuf_slot(j),
        after_global.megabuf_slot(pool_a, j) == before.megabuf_slot(pool_a, j),
        after_global.megabuf_slot(pool_b, j) == before.megabuf_slot(pool_b, j),
{
    assert(after_mega.megabuf_slot(pool_b, j) == before.megabuf_slot(pool_b, j));
    assert(after_mega.gmegabuf_slot(j) == before.gmegabuf_slot(j));
    assert(after_global.megabuf_slot(pool_a, j) == before.megabuf_slot(pool_a, j));
    assert(after_global.megabuf_slot(pool_b, j) == before.megabuf_slot(pool_b, j));
}

/// A write at an index in `0 .. BUFFER_SIZE` reads back; a write outside it
/// is dropped: that slot reads as zero and no slot changes.
pub proof fn lemma_buffer_bounds<V: Copy>(before: Memory<V>, after: Memory<V>, pool: u64, index: int, value: V)
    requires
        Memory::megabuf_written(before, after, pool, index, value),
    ensures
        0 <= index < BUFFER_SIZE ==> after.megabuf_slot(pool, index) == value,
        !(0 <= index < BUFFER_SIZE) ==> after.megabuf_slot(pool, index) == after.zero(),
        !(0 <= index < BUFFER_SIZE) ==> forall|p: u64, i: int|
            #[trigger] after.megabuf_slot(p, i) == before.megabuf_slot(p, i),
{
    assert(after.megabuf_slot(pool, index) == if 0 <= index < BUFFER_SIZE {
        value
    } else {
        before.megabuf_slot(pool, index)
    });
}

/// Whether a `while` goes on once its condition has been evaluated
/// `evaluations` times, the last time with truth value `condition`.
pub open spec fn while_goes_on(evaluations: int, condition: bool) -> bool {
    condition && evaluations < MAX_WHILE_EVALUATIONS
}

pub fn while_continues(evaluations: u64, condition: bool) -> (r: bool)
    ensures
        r == while_goes_on(evaluations as int, condition),
{
    condition && evaluations < MAX_WHILE_EVALUATIONS
}

/// How many times a `while` evaluates its condition, when evaluation number
/// `k` (from 0) gives `conds(k)` and `done` evaluations have been made.
pub open spec fn while_evaluations(conds: spec_fn(nat) -> bool, done: nat) -> nat
    decreases MAX_WHILE_EVALUATIONS - done,
{
    if while_goes_on(done + 1int, conds(done)) {
        while_evaluations(conds, done + 1)
    } else {
        done + 1
    }
}

/// A `while` whose condition never turns false stops after exactly
/// `MAX_WHILE_EVALUATIONS` evaluations, and no `while` makes more.
pub proof fn lemma_while_cap(conds: spec_fn(nat) -> bool)
    ensures
        1 <= while_evaluations(conds, 0) <= MAX_WHILE_EVALUATIONS,
        (forall|k: nat| #[trigger] conds(k)) ==> while_evaluations(conds, 0) == MAX_WHILE_EVALUATIONS,
{
    lemma_while_from(conds, 0);
}

proof fn lemma_while_from(conds: spec_fn(nat) -> bool, done: nat)
    requires
        done < MAX_WHILE_EVALUATIONS,
    ensures
        done + 1 <= while_evaluations(conds, done) <= MAX_WHILE_EVALUATIONS,
        (forall|k: nat| #[trigger] conds(k)) ==> while_evaluations(conds, done) == MAX_WHILE_EVALUATIONS,
    decreases MAX_WHILE_EVALUATIONS - done,
{
    if while_goes_on(done + 1int, conds(done)) {
        lemma_while_from(conds, done + 1);
    }
}

} // verus!
