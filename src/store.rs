//! Append-only store of one channel's values, kept as a list of full chunks
//! and one chunk being filled. Value `i` sits in chunk `i / BLOCK_CAPACITY`
//! at offset `i % BLOCK_CAPACITY`, so a lookup costs the same at any size.
use crate::block::{Block, BLOCK_CAPACITY};
use vstd::prelude::*;

verus! {

/// The values of `chunks`, first chunk first.
pub open spec fn joined(chunks: Seq<Seq<u64>>) -> Seq<u64>
    decreases chunks.len(),
{
    if chunks.len() == 0 {
        Seq::empty()
    } else {
        joined(chunks.drop_last()) + chunks.last()
    }
}

/// What a lookup of `index` in a channel that holds `values` gives.
pub open spec fn lookup_result(values: Seq<u64>, index: int) -> Option<u64> {
    if 0 <= index < values.len() {
        Some(values[index])
    } else {
        None
    }
}

/// Chunks that each hold the capacity are laid end to end: value `k * C + o`
/// of the join is value `o` of chunk `k`.
proof fn lemma_joined_full(chunks: Seq<Seq<u64>>)
    requires
        forall|k: int| 0 <= k < chunks.len() ==> #[trigger] chunks[k].len() == BLOCK_CAPACITY,
    ensures
        joined(chunks).len() == chunks.len() * BLOCK_CAPACITY,
        forall|k: int, o: int|
            0 <= k < chunks.len() && 0 <= o < BLOCK_CAPACITY ==> joined(chunks)[k * BLOCK_CAPACITY
                + o] == #[trigger] chunks[k][o],
    decreases chunks.len(),
{
    if chunks.len() > 0 {
        let init = chunks.drop_last();
        assert forall|k: int| 0 <= k < init.len() implies #[trigger] init[k].len()
            == BLOCK_CAPACITY by {
            assert(init[k] == chunks[k]);
        }
        lemma_joined_full(init);
        assert forall|k: int, o: int|
            0 <= k < chunks.len() && 0 <= o < BLOCK_CAPACITY implies joined(chunks)[k
            * BLOCK_CAPACITY + o] == #[trigger] chunks[k][o] by {
            if k < init.len() {
                assert(init[k] == chunks[k]);
                assert(k * BLOCK_CAPACITY + o < init.len() * BLOCK_CAPACITY) by (nonlinear_arith)
                    requires
                        k < init.len(),
                        o < BLOCK_CAPACITY,
                ;
            } else {
                assert(k == init.len());
            }
        }
    }
}

/// One channel's values.
pub struct ChannelStore {
    full: Vec<Block>,
    current: Block,
}

impl ChannelStore {
    /// The chunks, oldest first; the last is the one being filled.
    pub closed spec fn chunks(&self) -> Seq<Seq<u64>> {
        self.full@.map_values(|b: Block| b@).push(self.current@)
    }

    /// Every value appended since the store was made or cleared, in order.
    pub closed spec fn view(&self) -> Seq<u64> {
        joined(self.chunks())
    }

    /// Every chunk but the last holds the capacity; the last holds at most
    /// that; and the count of values fits a `usize`.
    pub closed spec fn wf(&self) -> bool {
        &&& forall|k: int| 0 <= k < self.full@.len() ==> (#[trigger] self.full@[k])@.len()
            == BLOCK_CAPACITY
        &&& self.current.wf()
        &&& self.full@.len() * BLOCK_CAPACITY + self.current@.len() <= usize::MAX
    }

    proof fn lemma_layout(&self)
        requires
            self.wf(),
        ensures
            self.chunks().len() == self.full@.len() + 1,
            self.view().len() == self.full@.len() * BLOCK_CAPACITY + self.current@.len(),
            forall|k: int, o: int|
                0 <= k < self.full@.len() && 0 <= o < BLOCK_CAPACITY ==> self.view()[k
                    * BLOCK_CAPACITY + o] == #[trigger] self.full@[k]@[o],
            forall|o: int|
                0 <= o < self.current@.len() ==> self.view()[self.full@.len() * BLOCK_CAPACITY
                    + o] == #[trigger] self.current@[o],
    {
        let front = self.full@.map_values(|b: Block| b@);
        assert(self.chunks().drop_last() =~= front);
        assert forall|k: int| 0 <= k < front.len() implies #[trigger] front[k].len()
            == BLOCK_CAPACITY by {
            assert(front[k] == self.full@[k]@);
        }
        lemma_joined_full(front);
        assert forall|k: int, o: int|
            0 <= k < self.full@.len() && 0 <= o < BLOCK_CAPACITY implies self.view()[k
            * BLOCK_CAPACITY + o] == #[trigger] self.full@[k]@[o] by {
            assert(front[k] == self.full@[k]@);
            assert(k * BLOCK_CAPACITY + o < front.len() * BLOCK_CAPACITY) by (nonlinear_arith)
                requires
                    k < front.len(),
                    o < BLOCK_CAPACITY,
            ;
        }
    }

    /// A store with no values.
    pub fn new() -> (s: ChannelStore)
        ensures
            s.wf(),
            s.view() == Seq::<u64>::empty(),
    {
        let s = ChannelStore { full: Vec::new(), current: Block::new() };
        proof {
            assert(s.chunks().drop_last() =~= Seq::<Seq<u64>>::empty());
            assert(joined(s.chunks().drop_last()) == Seq::<u64>::empty());
            assert(s.chunks().last() == s.current@);
            assert(s.view() =~= Seq::<u64>::empty());
        }
        s
    }

    /// Number of values held.
    pub fn len(&self) -> (n: usize)
        requires
            self.wf(),
        ensures
            n == self.view().len(),
    {
        proof {
            self.lemma_layout();
        }
        self.full.len() * BLOCK_CAPACITY + self.current.len()
    }

    /// Appends `val`. When the chunk being filled holds the capacity, it
    /// joins the full ones first and a fresh chunk takes its place.
    pub fn append(&mut self, val: u64)
        requires
            old(self).wf(),
            old(self).view().len() < usize::MAX,
        ensures
            final(self).wf(),
            final(self).view() == old(self).view().push(val),
    {
        proof {
            self.lemma_layout();
        }
        let ghost front = self.full@.map_values(|b: Block| b@);
        let ghost before = self.current@;
        if self.current.is_full() {
            let mut fresh = Block::new();
            std::mem::swap(&mut self.current, &mut fresh);
            self.full.push(fresh);
            proof {
                assert(self.full@.map_values(|b: Block| b@) =~= front.push(before));
                assert(front.push(before).drop_last() =~= front);
                assert(self.chunks().drop_last() =~= front.push(before));
                assert(joined(self.chunks().drop_last()) == joined(front) + before);
                assert(self.full@.len() * BLOCK_CAPACITY == (self.full@.len() - 1)
                    * BLOCK_CAPACITY + BLOCK_CAPACITY);
            }
        }
        let ghost full_now = self.full@.map_values(|b: Block| b@);
        let ghost cur_now = self.current@;
        proof {
            assert(self.chunks().drop_last() =~= full_now);
            assert(self.view() =~= joined(full_now) + cur_now);
            assert(joined(full_now) + cur_now =~= old(self).view());
        }
        self.current.push(val);
        proof {
            assert(self.chunks().drop_last() =~= full_now);
            assert(self.full@.map_values(|b: Block| b@) =~= full_now);
            assert(self.view() =~= joined(full_now) + cur_now.push(val));
            assert(joined(full_now) + cur_now.push(val) =~= (joined(full_now) + cur_now).push(val));
        }
    }
    /// The value at `index`, computed as chunk `index / BLOCK_CAPACITY` and
    /// offset `index % BLOCK_CAPACITY`; `None` for a negative index or one at
    /// or past the count.
    pub fn lookup(&self, index: i64) -> (r: Option<u64>)
        requires
            self.wf(),
        ensures
            r == lookup_result(self.view(), index as int),
    {
        proof {
            self.lemma_layout();
        }
        if index < 0 {
            return None;
        }
        let i = index as u64;
        let chunk = i / (BLOCK_CAPACITY as u64);
        let offset = (i % (BLOCK_CAPACITY as u64)) as usize;
        let n = self.full.len();
        proof {
            assert(i == chunk * BLOCK_CAPACITY + offset) by (nonlinear_arith)
                requires
                    chunk as int == i as int / (BLOCK_CAPACITY as int),
                    offset as int == i as int % (BLOCK_CAPACITY as int),
                    BLOCK_CAPACITY > 0,
            ;
        }
        if chunk < n as u64 {
            let r = self.full[chunk as usize].lookup(offset);
            proof {
                assert(chunk * BLOCK_CAPACITY + offset < n * BLOCK_CAPACITY) by (nonlinear_arith)
                    requires
                        chunk < n,
                        offset < BLOCK_CAPACITY,
                ;
                assert(self.full@[chunk as int]@[offset as int] == self.view()[index as int]);
            }
            r
        } else if chunk == n as u64 {
            self.current.lookup(offset)
        } else {
            proof {
                assert(i >= (n + 1) * BLOCK_CAPACITY) by (nonlinear_arith)
                    requires
                        chunk >= n + 1,
                        i == chunk * BLOCK_CAPACITY + offset,
                ;
            }
            None
        }
    }

    /// Number of chunks that hold a value: the count divided by the
    /// capacity, rounded up.
    pub fn chunk_count(&self) -> (n: usize)
        requires
            self.wf(),
        ensures
            n == (self.view().len() + BLOCK_CAPACITY - 1) / (BLOCK_CAPACITY as int),
    {
        proof {
            self.lemma_layout();
        }
        let n = self.full.len();
        if self.current.len() == 0 {
            proof {
                assert((n * BLOCK_CAPACITY + BLOCK_CAPACITY - 1) / (BLOCK_CAPACITY as int) == n)
                    by (nonlinear_arith)
                    requires
                        n >= 0,
                ;
            }
            n
        } else {
            proof {
                let c = self.current@.len();
                assert((n * BLOCK_CAPACITY + c + BLOCK_CAPACITY - 1) / (BLOCK_CAPACITY as int)
                    == n + 1) by (nonlinear_arith)
                    requires
                        n >= 0,
                        1 <= c <= BLOCK_CAPACITY,
                ;
            }
            n + 1
        }
    }

    /// Drops every value.
    pub fn clear(&mut self)
        ensures
            final(self).wf(),
            final(self).view() == Seq::<u64>::empty(),
    {
        *self = ChannelStore::new();
    }
}

/// Appending `values` one by one to a store that holds `start`.
pub open spec fn appended(start: Seq<u64>, values: Seq<u64>) -> Seq<u64>
    decreases values.len(),
{
    if values.len() == 0 {
        start
    } else {
        appended(start.push(values[0]), values.drop_first())
    }
}

/// After any sequence of appends to an empty store, a lookup of `i` gives
/// the `i`-th value appended for `0 <= i < count`, and nothing otherwise.
pub proof fn lemma_lookup_after_appends(values: Seq<u64>, i: int)
    ensures
        lookup_result(appended(Seq::empty(), values), i) == (if 0 <= i < values.len() {
            Some(values[i])
        } else {
            None
        }),
{
    lemma_appended_concat(Seq::empty(), values);
    assert(Seq::<u64>::empty() + values =~= values);
}

proof fn lemma_appended_concat(start: Seq<u64>, values: Seq<u64>)
    ensures
        appended(start, values) == start + values,
    decreases values.len(),
{
    if values.len() > 0 {
        lemma_appended_concat(start.push(values[0]), values.drop_first());
        assert(start.push(values[0]) + values.drop_first() =~= start + values);
    }
}

/// In a well-formed store, value `i` sits in chunk `i / BLOCK_CAPACITY` at
/// offset `i % BLOCK_CAPACITY`, and every chunk but the last is full.
pub proof fn lemma_index_layout(s: &ChannelStore, i: int)
    requires
        s.wf(),
        0 <= i < s.view().len(),
    ensures
        forall|k: int| 0 <= k < s.chunks().len() - 1 ==> #[trigger] s.chunks()[k].len()
            == BLOCK_CAPACITY,
        s.chunks().last().len() <= BLOCK_CAPACITY,
        s.chunks()[i / BLOCK_CAPACITY as int][i % BLOCK_CAPACITY as int] == s.view()[i],
{
    s.lemma_layout();
    let k = i / BLOCK_CAPACITY as int;
    let o = i % BLOCK_CAPACITY as int;
    let n = s.full@.len();
    assert(i == k * BLOCK_CAPACITY + o);
    assert forall|j: int| 0 <= j < s.chunks().len() - 1 implies #[trigger] s.chunks()[j].len()
        == BLOCK_CAPACITY by {
        assert(s.chunks()[j] == s.full@[j]@);
    }
    if k < n {
        assert(s.chunks()[k] == s.full@[k]@);
    } else {
        assert(k == n) by (nonlinear_arith)
            requires
                k >= n,
                i == k * BLOCK_CAPACITY + o,
                0 <= o < BLOCK_CAPACITY,
                i < n * BLOCK_CAPACITY + BLOCK_CAPACITY,
        ;
    }
}

} // verus!
