//! A fixed-capacity, least-recently-used block cache keyed by block number.
//!
//! Entries carry a logical access timestamp and sit in a binary min-heap of
//! timestamps beside a hash map from block number to cached bytes; each map
//! entry records where its heap node sits, and the two structures stay in
//! lockstep. A lookup restamps its entry with the current logical time and
//! sifts it back into place, so the heap root always holds an
//! oldest-accessed entry, and an insertion that would exceed the capacity
//! evicts exactly that root.

use vstd::prelude::*;
use std::collections::HashMap;
use vstd::std_specs::hash::group_hash_axioms;

verus! {

broadcast use group_hash_axioms;

/// A cached block together with the index of its heap node.
#[derive(Debug, Clone, Copy)]
pub struct MapItem<const BLOCK_SIZE: usize> {
    heap_idx: usize,
    block: [u8; BLOCK_SIZE],
}

/// One heap node: the logical time of the last access and the block number
/// it belongs to.
#[derive(Debug, Clone, Copy)]
struct HeapItem {
    timestamp: u64,
    block_num: u64,
}

/// The min-heap shape by timestamp: every child is at least its parent.
spec fn ts_ordered(h: Seq<HeapItem>) -> bool {
    forall|c: int| 1 <= c < h.len() ==> h[(c - 1) / 2].timestamp <= (#[trigger] h[c]).timestamp
}

/// The min-heap shape except on the two edges leaving `p`, whose far ends
/// are still at least `p`'s own parent.
spec fn ts_ordered_except_down(h: Seq<HeapItem>, p: int) -> bool {
    &&& forall|c: int|
        1 <= c < h.len() && (c - 1) / 2 != p ==> h[(c - 1) / 2].timestamp <= (
        #[trigger] h[c]).timestamp
    &&& forall|c: int|
        1 <= c < h.len() && (c - 1) / 2 == p && p >= 1 ==> h[(p - 1) / 2].timestamp <= (
        #[trigger] h[c]).timestamp
}

/// The min-heap shape except on the edge into `c`, whose children are still
/// at least `c`'s own parent.
spec fn ts_ordered_except_up(h: Seq<HeapItem>, c: int) -> bool {
    &&& forall|k: int|
        1 <= k < h.len() && k != c ==> h[(k - 1) / 2].timestamp <= (#[trigger] h[k]).timestamp
    &&& forall|k: int|
        1 <= k < h.len() && (k - 1) / 2 == c && c >= 1 ==> h[(c - 1) / 2].timestamp <= (
        #[trigger] h[k]).timestamp
}

/// In an ordered heap, the root's timestamp is minimal.
proof fn lemma_ts_root_minimal(h: Seq<HeapItem>, k: int)
    requires
        ts_ordered(h),
        0 <= k < h.len(),
    ensures
        h[0].timestamp <= h[k].timestamp,
    decreases k,
{
    if k > 0 {
        lemma_ts_root_minimal(h, (k - 1) / 2);
    }
}

/// A fixed-capacity cache of `BLOCK_SIZE`-byte blocks keyed by block number.
#[derive(Debug, Clone)]
pub struct Cache<const BLOCK_SIZE: usize> {
    heap: Vec<HeapItem>,
    map: HashMap<u64, MapItem<BLOCK_SIZE>>,
    capacity: usize,
    clock: u64,
}

impl<const BLOCK_SIZE: usize> Cache<BLOCK_SIZE> {
    /// The heap and the map mirror each other exactly.
    spec fn sync(self) -> bool {
        &&& self.heap@.len() == self.map@.len()
        &&& forall|i: int|
            0 <= i < self.heap@.len() ==> {
                &&& self.map@.contains_key(#[trigger] self.heap@[i].block_num)
                &&& self.map@[self.heap@[i].block_num].heap_idx == i
            }
        &&& forall|k: u64|
            self.map@.contains_key(k) ==> {
                &&& (#[trigger] self.map@[k]).heap_idx < self.heap@.len()
                &&& self.heap@[self.map@[k].heap_idx as int].block_num == k
            }
    }

    /// Every access stamp is at most the clock.
    spec fn stamps_bounded(self) -> bool {
        forall|i: int|
            0 <= i < self.heap@.len() ==> (#[trigger] self.heap@[i]).timestamp <= self.clock
    }

    /// The mirror invariant and the timestamp min-heap shape hold, the
    /// stamps are bounded by the clock, and the cache is within capacity.
    pub closed spec fn wf(self) -> bool {
        &&& self.sync()
        &&& ts_ordered(self.heap@)
        &&& self.stamps_bounded()
        &&& self.map@.len() <= self.capacity
    }

    /// Whether a block number is resident.
    pub closed spec fn spec_contains(self, block_num: u64) -> bool {
        self.map@.contains_key(block_num)
    }

    /// The cached bytes of a resident block number.
    pub closed spec fn block_at(self, block_num: u64) -> Seq<u8> {
        self.map@[block_num].block@
    }

    /// The logical access time of a resident block number.
    pub closed spec fn stamp_of(self, block_num: u64) -> u64 {
        self.heap@[self.map@[block_num].heap_idx as int].timestamp
    }

    /// The logical time the next access will be stamped with.
    pub closed spec fn spec_clock(self) -> u64 {
        self.clock
    }

    /// The number of resident entries.
    pub closed spec fn spec_len(self) -> nat {
        self.map@.len()
    }

    /// The configured capacity.
    pub closed spec fn spec_capacity(self) -> nat {
        self.capacity as nat
    }

    /// A fresh, empty cache of the given capacity.
    pub fn new(capacity: usize) -> (r: Self)
        ensures
            r.wf(),
            r.spec_len() == 0,
            r.spec_capacity() == capacity,
            forall|k: u64| !r.spec_contains(k),
    {
        Cache { heap: Vec::new(), map: HashMap::new(), capacity, clock: 0u64 }
    }

    /// The number of cached blocks.
    pub fn count(&self) -> (c: usize)
        ensures
            c == self.spec_len(),
    {
        self.map.len()
    }

    /// Drop every entry; the capacity stays.
    pub fn clear(&mut self)
        ensures
            final(self).wf(),
            final(self).spec_len() == 0,
            final(self).spec_capacity() == old(self).spec_capacity(),
            forall|k: u64| !final(self).spec_contains(k),
    {
        self.map.clear();
        self.heap.clear();
    }

    /// The resident entries as owned pairs, each block number once.
    pub fn iter(&self) -> (r: Vec<(u64, [u8; BLOCK_SIZE])>)
        requires
            self.wf(),
        ensures
            r@.len() == self.spec_len(),
            forall|i: int|
                0 <= i < r@.len() ==> self.spec_contains(#[trigger] r@[i].0) && r@[i].1@
                    == self.block_at(r@[i].0),
            forall|i: int, j: int| 0 <= i < j < r@.len() ==> r@[i].0 != r@[j].0,
    {
        let mut out: Vec<(u64, [u8; BLOCK_SIZE])> = Vec::new();
        let mut i: usize = 0;
        while i < self.heap.len()
            invariant
                self.wf(),
                i <= self.heap@.len(),
                out@.len() == i,
                forall|m: int| 0 <= m < i ==> #[trigger] out@[m].0 == self.heap@[m].block_num,
                forall|m: int|
                    0 <= m < i ==> self.spec_contains(#[trigger] out@[m].0) && out@[m].1@
                        == self.block_at(out@[m].0),
            decreases self.heap@.len() - i,
        {
            let k = self.heap[i].block_num;
            match self.map.get(&k) {
                Some(item) => {
                    out.push((k, item.block));
                },
                None => {
                    proof {
                        assert(self.map@.contains_key(k));
                    }
                    vstd::pervasive::unreached()
                },
            }
            i += 1;
        }
        proof {
            assert forall|i: int, j: int| 0 <= i < j < out@.len() implies out@[i].0 != out@[j].0 by {
                assert(self.map@[self.heap@[i].block_num].heap_idx == i);
                assert(self.map@[self.heap@[j].block_num].heap_idx == j);
            }
        }
        out
    }

    /// Look a block up; a hit restamps the entry with the current logical
    /// time and sifts it back into heap order, making it the most recently
    /// used entry.
    pub fn get(&mut self, block_num: u64) -> (r: Option<[u8; BLOCK_SIZE]>)
        requires
            old(self).wf(),
        ensures
            final(self).wf(),
            final(self).spec_len() == old(self).spec_len(),
            final(self).spec_capacity() == old(self).spec_capacity(),
            final(self).spec_clock() >= old(self).spec_clock(),
            forall|k: u64| final(self).spec_contains(k) == old(self).spec_contains(k),
            forall|k: u64|
                old(self).spec_contains(k) ==> final(self).block_at(k) == old(self).block_at(k),
            match r {
                Some(b) => {
                    &&& old(self).spec_contains(block_num)
                    &&& b@ == old(self).block_at(block_num)
                    &&& final(self).stamp_of(block_num) == old(self).spec_clock()
                    &&& forall|k: u64|
                        old(self).spec_contains(k) && k != block_num ==> final(self).stamp_of(k)
                            == old(self).stamp_of(k)
                    &&& forall|k: u64|
                        old(self).spec_contains(k) ==> #[trigger] final(self).stamp_of(k) <= final(self).stamp_of(block_num)
                },
                None => !old(self).spec_contains(block_num) && *final(self) == *old(self),
            },
    {
        let idx = match self.map.get(&block_num) {
            Some(item) => item.heap_idx,
            None => {
                return None;
            },
        };
        let ts = self.tick();
        let ghost pre = *old(self);
        let mut node = self.heap[idx];
        node.timestamp = ts;
        self.heap.set(idx, node);
        proof {
            assert forall|i: int|
                0 <= i < self.heap@.len() implies self.map@.contains_key(
                #[trigger] self.heap@[i].block_num,
            ) && self.map@[self.heap@[i].block_num].heap_idx == i by {
                assert(self.heap@[i].block_num == pre.heap@[i].block_num);
            }
            assert(ts_ordered_except_down(self.heap@, idx as int)) by {
                assert forall|c: int|
                    1 <= c < self.heap@.len() && (c - 1) / 2 != idx as int implies self.heap@[(c
                    - 1) / 2].timestamp <= (#[trigger] self.heap@[c]).timestamp by {
                    assert(self.heap@[(c - 1) / 2] == pre.heap@[(c - 1) / 2]);
                    if c == idx as int {
                        assert(pre.heap@[(c - 1) / 2].timestamp <= pre.heap@[c].timestamp);
                        assert(pre.heap@[c].timestamp <= pre.clock);
                    } else {
                        assert(self.heap@[c] == pre.heap@[c]);
                    }
                }
                assert forall|c: int|
                    1 <= c < self.heap@.len() && (c - 1) / 2 == idx as int && idx as int
                    >= 1 implies self.heap@[(idx as int - 1) / 2].timestamp <= (
                #[trigger] self.heap@[c]).timestamp by {
                    assert(self.heap@[c] == pre.heap@[c]);
                    assert(self.heap@[(idx as int - 1) / 2] == pre.heap@[(idx as int - 1) / 2]);
                    assert(pre.heap@[(idx as int - 1) / 2].timestamp
                        <= pre.heap@[idx as int].timestamp);
                    assert(pre.heap@[idx as int].timestamp <= pre.heap@[c].timestamp);
                }
            }
        }
        self.sort_down(idx);
        proof {
            assert(self.stamp_of(block_num) == ts);
            assert forall|k: u64| old(self).spec_contains(k) implies #[trigger] self.stamp_of(k)
                <= self.stamp_of(block_num) by {
                if k != block_num {
                    assert(self.stamp_of(k) == pre.stamp_of(k));
                    assert(pre.stamp_of(k) <= pre.clock);
                }
            }
        }
        match self.map.get(&block_num) {
            Some(item) => Some(item.block),
            None => vstd::pervasive::unreached(),
        }
    }

    /// Insert a block stamped with the current logical time. A resident
    /// block number is left untouched and the call reports `None`. Inserting
    /// at capacity evicts the heap root — an entry whose access stamp is
    /// minimal — and reports `Some(())` exactly when that eviction left a
    /// non-empty cache behind.
    pub fn put(&mut self, block_num: u64, block: &[u8; BLOCK_SIZE]) -> (r: Option<()>)
        requires
            old(self).wf(),
        ensures
            final(self).wf(),
            final(self).spec_capacity() == old(self).spec_capacity(),
            final(self).spec_clock() >= old(self).spec_clock(),
            old(self).spec_contains(block_num) ==> *final(self) == *old(self) && r is None,
            !old(self).spec_contains(block_num) && old(self).spec_len() < old(self).spec_capacity()
                ==> {
                &&& r is None
                &&& final(self).spec_len() == old(self).spec_len() + 1
                &&& final(self).spec_contains(block_num)
                &&& final(self).block_at(block_num) == block@
                &&& final(self).stamp_of(block_num) == old(self).spec_clock()
                &&& forall|k: u64|
                    old(self).spec_contains(k) ==> final(self).spec_contains(k) && final(self).block_at(k) == old(self).block_at(k) && final(self).stamp_of(k) == old(self).stamp_of(k)
                &&& forall|k: u64|
                    final(self).spec_contains(k) ==> k == block_num || old(self).spec_contains(k)
            },
            !old(self).spec_contains(block_num) && old(self).spec_len() == old(self).spec_capacity() ==> {
                &&& (r is Some <==> old(self).spec_capacity() > 0)
                &&& final(self).spec_len() == old(self).spec_capacity()
                &&& exists|e: u64|
                    {
                        &&& (old(self).spec_contains(e) || e == block_num)
                        &&& !final(self).spec_contains(e)
                        &&& (old(self).spec_contains(e) ==> forall|k: u64|
                            old(self).spec_contains(k) ==> old(self).stamp_of(e) <= #[trigger] old(self).stamp_of(k))
                        &&& (e == block_num ==> forall|k: u64|
                            old(self).spec_contains(k) ==> #[trigger] old(self).stamp_of(k) >= old(self).spec_clock())
                        &&& forall|k: u64|
                            final(self).spec_contains(k) <==> ((old(self).spec_contains(k) || k
                                == block_num) && k != e)
                        &&& forall|k: u64|
                            final(self).spec_contains(k) ==> final(self).block_at(k) == (if k
                                == block_num {
                                block@
                            } else {
                                old(self).block_at(k)
                            })
                        &&& forall|k: u64|
                            final(self).spec_contains(k) ==> final(self).stamp_of(k) == (if k
                                == block_num {
                                old(self).spec_clock()
                            } else {
                                old(self).stamp_of(k)
                            })
                    }
            },
    {
        if self.map.contains_key(&block_num) {
            return None;
        }
        let ts = self.tick();
        let ghost s0 = *old(self);
        self.insert_entry(block_num, block, ts);
        if self.map.len() > self.capacity {
            let ghost mid = *self;
            let evicted = self.evict_root();
            proof {
                let e = evicted;
                assert(s0.spec_contains(e) || e == block_num);
                if s0.spec_contains(e) {
                    assert forall|k: u64| s0.spec_contains(k) implies s0.stamp_of(e)
                        <= #[trigger] s0.stamp_of(k) by {
                        assert(mid.stamp_of(e) <= mid.stamp_of(k));
                        assert(mid.stamp_of(e) == s0.stamp_of(e));
                        assert(mid.stamp_of(k) == s0.stamp_of(k));
                    }
                }
                if e == block_num {
                    assert forall|k: u64| s0.spec_contains(k) implies #[trigger] s0.stamp_of(k)
                        >= s0.clock by {
                        assert(mid.stamp_of(block_num) == ts);
                        assert(mid.stamp_of(block_num) <= mid.stamp_of(k));
                        assert(mid.stamp_of(k) == s0.stamp_of(k));
                        assert(s0.stamp_of(k) <= s0.clock);
                    }
                }
            }
            if self.map.len() > 0 {
                Some(())
            } else {
                None
            }
        } else {
            None
        }
    }

    /// Insert an absent key stamped `ts` and sift it into heap order.
    fn insert_entry(&mut self, block_num: u64, block: &[u8; BLOCK_SIZE], ts: u64)
        requires
            old(self).sync(),
            ts_ordered(old(self).heap@),
            old(self).stamps_bounded(),
            !old(self).map@.contains_key(block_num),
            ts <= old(self).clock,
        ensures
            final(self).sync(),
            ts_ordered(final(self).heap@),
            final(self).stamps_bounded(),
            final(self).capacity == old(self).capacity,
            final(self).clock == old(self).clock,
            final(self).map@.len() == old(self).map@.len() + 1,
            final(self).spec_contains(block_num),
            final(self).block_at(block_num) == block@,
            final(self).stamp_of(block_num) == ts,
            forall|k: u64|
                old(self).map@.contains_key(k) ==> final(self).spec_contains(k) && final(self).map@[k].block == old(self).map@[k].block,
            forall|k: u64|
                old(self).map@.contains_key(k) ==> #[trigger] final(self).stamp_of(k) == old(self).stamp_of(k),
            forall|k: u64|
                final(self).spec_contains(k) ==> k == block_num || old(self).map@.contains_key(k),
    {
        let heap_idx = self.heap.len();
        let ghost s0 = *old(self);
        self.heap.push(HeapItem { timestamp: ts, block_num });
        self.map.insert(block_num, MapItem { heap_idx, block: *block });
        proof {
            assert forall|i: int|
                0 <= i < self.heap@.len() implies self.map@.contains_key(
                #[trigger] self.heap@[i].block_num,
            ) && self.map@[self.heap@[i].block_num].heap_idx == i by {
                if i < s0.heap@.len() {
                    assert(self.heap@[i].block_num == s0.heap@[i].block_num);
                    assert(s0.map@[self.heap@[i].block_num].heap_idx == i);
                    assert(self.heap@[i].block_num != block_num);
                }
            }
            assert forall|k: u64| self.map@.contains_key(k) implies (
            #[trigger] self.map@[k]).heap_idx < self.heap@.len() && self.heap@[self.map@[k].heap_idx as int].block_num
                == k by {
                if k != block_num {
                    assert(s0.map@.contains_key(k));
                    assert(self.heap@[s0.map@[k].heap_idx as int] == s0.heap@[s0.map@[k].heap_idx as int]);
                }
            }
            assert(ts_ordered_except_up(self.heap@, heap_idx as int)) by {
                assert forall|k: int|
                    1 <= k < self.heap@.len() && k != heap_idx as int implies self.heap@[(k - 1)
                    / 2].timestamp <= (#[trigger] self.heap@[k]).timestamp by {
                    assert(self.heap@[k] == s0.heap@[k]);
                    assert(self.heap@[(k - 1) / 2] == s0.heap@[(k - 1) / 2]);
                }
            }
            assert forall|k: u64| s0.map@.contains_key(k) implies self.stamp_of(k) == s0.stamp_of(
                k,
            ) && self.map@[k].block == s0.map@[k].block by {
                assert(k != block_num);
                assert(self.heap@[s0.map@[k].heap_idx as int] == s0.heap@[s0.map@[k].heap_idx as int]);
            }
        }
        self.sort_up(heap_idx);
    }

    /// Remove the heap root's entry: an entry whose access stamp is minimal.
    fn evict_root(&mut self) -> (evicted: u64)
        requires
            old(self).sync(),
            ts_ordered(old(self).heap@),
            old(self).stamps_bounded(),
            old(self).heap@.len() >= 1,
        ensures
            final(self).sync(),
            ts_ordered(final(self).heap@),
            final(self).stamps_bounded(),
            final(self).capacity == old(self).capacity,
            final(self).clock == old(self).clock,
            final(self).map@.len() == old(self).map@.len() - 1,
            old(self).spec_contains(evicted),
            !final(self).spec_contains(evicted),
            forall|k: u64|
                old(self).spec_contains(k) ==> old(self).stamp_of(evicted) <= #[trigger] old(self).stamp_of(k),
            forall|k: u64|
                final(self).spec_contains(k) <==> (old(self).spec_contains(k) && k != evicted),
            forall|k: u64|
                final(self).spec_contains(k) ==> final(self).block_at(k) == old(self).block_at(k),
            forall|k: u64|
                final(self).spec_contains(k) ==> #[trigger] final(self).stamp_of(k) == old(self).stamp_of(k),
    {
        let ghost pre = *old(self);
        proof {
            assert forall|k: u64| pre.map@.contains_key(k) implies pre.stamp_of(
                pre.heap@[0].block_num,
            ) <= #[trigger] pre.stamp_of(k) by {
                lemma_ts_root_minimal(pre.heap@, pre.map@[k].heap_idx as int);
                assert(pre.map@[pre.heap@[0].block_num].heap_idx == 0);
            }
        }
        let removed = self.heap.swap_remove(0);
        self.map.remove(&removed.block_num);
        proof {
            assert(pre.map@.contains_key(removed.block_num));
            assert(pre.map@[removed.block_num].heap_idx == 0);
        }
        if self.heap.len() > 0 {
            let moved = self.heap[0];
            proof {
                assert(self.heap@[0] == pre.heap@[pre.heap@.len() - 1]);
                assert(pre.map@[moved.block_num].heap_idx == pre.heap@.len() - 1);
                assert(moved.block_num != removed.block_num);
            }
            let item = match self.map.get(&moved.block_num) {
                Some(item) => *item,
                None => vstd::pervasive::unreached(),
            };
            self.map.insert(moved.block_num, MapItem { heap_idx: 0, block: item.block });
            proof {
                self.lemma_sync_after_eviction(pre, removed, moved);
                assert(ts_ordered_except_down(self.heap@, 0)) by {
                    assert forall|c: int|
                        1 <= c < self.heap@.len() && (c - 1) / 2 != 0 implies self.heap@[(c - 1)
                        / 2].timestamp <= (#[trigger] self.heap@[c]).timestamp by {
                        assert(self.heap@[c] == pre.heap@[c]);
                        assert(self.heap@[(c - 1) / 2] == pre.heap@[(c - 1) / 2]);
                    }
                }
            }
            self.sort_down(0);
        } else {
            proof {
                assert(self.map@.len() == pre.map@.len() - 1);
                assert(self.heap@.len() == 0);
                assert forall|k: u64| self.map@.contains_key(k) implies false by {
                    assert(pre.map@.contains_key(k));
                    assert(pre.map@[k].heap_idx < pre.heap@.len());
                    assert(pre.heap@.len() == 1);
                    assert(pre.heap@[0].block_num == removed.block_num);
                    assert(k == removed.block_num);
                }
                assert(self.map@ =~= Map::<u64, MapItem<BLOCK_SIZE>>::empty());
            }
        }
        removed.block_num
    }

    /// Establish the mirror invariant again after the root was evicted, the
    /// last heap node moved into its place, and that node's map entry was
    /// repointed at index 0.
    proof fn lemma_sync_after_eviction(self, pre: Self, removed: HeapItem, moved: HeapItem)
        requires
            pre.sync(),
            pre.heap@.len() >= 2,
            removed == pre.heap@[0],
            moved == pre.heap@[pre.heap@.len() - 1],
            self.heap@ == pre.heap@.update(0, moved).drop_last(),
            self.map@ == pre.map@.remove(removed.block_num).insert(
                moved.block_num,
                MapItem { heap_idx: 0, block: pre.map@[moved.block_num].block },
            ),
            self.capacity == pre.capacity,
        ensures
            self.heap@.len() == self.map@.len(),
            forall|i: int|
                0 <= i < self.heap@.len() ==> {
                    &&& self.map@.contains_key(#[trigger] self.heap@[i].block_num)
                    &&& self.map@[self.heap@[i].block_num].heap_idx == i
                },
            forall|k: u64|
                self.map@.contains_key(k) ==> {
                    &&& (#[trigger] self.map@[k]).heap_idx < self.heap@.len()
                    &&& self.heap@[self.map@[k].heap_idx as int].block_num == k
                },
            forall|k: u64|
                self.map@.contains_key(k) <==> (pre.map@.contains_key(k) && k
                    != removed.block_num),
            forall|k: u64| self.map@.contains_key(k) ==> self.map@[k].block == pre.map@[k].block,
            forall|k: u64|
                self.map@.contains_key(k) ==> #[trigger] self.stamp_of(k) == pre.stamp_of(k),
    {
        assert(moved.block_num != removed.block_num) by {
            assert(pre.map@[pre.heap@[0].block_num].heap_idx == 0);
            assert(pre.map@[pre.heap@[pre.heap@.len() - 1].block_num].heap_idx == pre.heap@.len()
                - 1);
        }
        assert(pre.map@.contains_key(moved.block_num));
        assert(pre.map@.remove(removed.block_num).contains_key(moved.block_num));
        assert(self.map@.len() == pre.map@.len() - 1) by {
            assert(pre.map@.remove(removed.block_num).len() == pre.map@.len() - 1);
            assert(self.map@.len() == pre.map@.remove(removed.block_num).len());
        }
        assert forall|i: int|
            0 <= i < self.heap@.len() implies self.map@.contains_key(
            #[trigger] self.heap@[i].block_num,
        ) && self.map@[self.heap@[i].block_num].heap_idx == i by {
            if i == 0 {
                assert(self.heap@[0] == moved);
            } else {
                assert(self.heap@[i] == pre.heap@[i]);
                assert(pre.map@[self.heap@[i].block_num].heap_idx == i);
                assert(self.heap@[i].block_num != removed.block_num);
                assert(self.heap@[i].block_num != moved.block_num);
            }
        }
        assert forall|k: u64| self.map@.contains_key(k) implies (
        #[trigger] self.map@[k]).heap_idx < self.heap@.len() && self.heap@[self.map@[k].heap_idx as int].block_num
            == k by {
            if k == moved.block_num {
                assert(self.map@[k].heap_idx == 0);
                assert(self.heap@[0].block_num == k);
            } else {
                assert(pre.map@.contains_key(k));
                assert(k != removed.block_num);
                let idx = pre.map@[k].heap_idx as int;
                assert(pre.heap@[idx].block_num == k);
                assert(idx != 0 && idx != pre.heap@.len() - 1);
                assert(self.heap@[idx] == pre.heap@[idx]);
            }
        }
        assert forall|k: u64| self.map@.contains_key(k) implies #[trigger] self.stamp_of(k)
            == pre.stamp_of(k) by {
            if k == moved.block_num {
                assert(self.heap@[0] == moved);
                assert(pre.heap@[pre.map@[k].heap_idx as int] == moved);
            } else {
                let idx = pre.map@[k].heap_idx as int;
                assert(pre.heap@[idx].block_num == k);
                assert(idx != 0 && idx != pre.heap@.len() - 1);
                assert(self.heap@[idx] == pre.heap@[idx]);
            }
        }
    }

    /// Advance the logical clock; it saturates rather than wraps.
    fn tick(&mut self) -> (ts: u64)
        ensures
            final(self).heap == old(self).heap,
            final(self).map == old(self).map,
            final(self).capacity == old(self).capacity,
            ts == old(self).clock,
            old(self).clock <= final(self).clock,
            ts <= final(self).clock,
    {
        let ts = self.clock;
        if self.clock < u64::MAX {
            self.clock = self.clock + 1;
        }
        ts
    }

    /// Sift the heap node at `c` up by timestamp, keeping the map's heap
    /// indices in step with every swap.
    fn sort_up(&mut self, c: usize)
        requires
            old(self).sync(),
            c < old(self).heap@.len(),
            ts_ordered_except_up(old(self).heap@, c as int),
        ensures
            final(self).sync(),
            ts_ordered(final(self).heap@),
            final(self).capacity == old(self).capacity,
            final(self).clock == old(self).clock,
            final(self).heap@.len() == old(self).heap@.len(),
            final(self).map@.dom() == old(self).map@.dom(),
            forall|k: u64|
                old(self).map@.contains_key(k) ==> final(self).map@[k].block == old(self).map@[k].block,
            forall|k: u64|
                old(self).map@.contains_key(k) ==> #[trigger] final(self).stamp_of(k) == old(self).stamp_of(k),
            old(self).stamps_bounded() ==> final(self).stamps_bounded(),
    {
        let mut c = c;
        let mut done = false;
        while !done
            invariant
                self.sync(),
                c < self.heap@.len(),
                ts_ordered_except_up(self.heap@, c as int),
                self.capacity == old(self).capacity,
                self.clock == old(self).clock,
                self.heap@.len() == old(self).heap@.len(),
                self.map@.dom() == old(self).map@.dom(),
                forall|k: u64|
                    old(self).map@.contains_key(k) ==> self.map@[k].block == old(self).map@[k].block,
                forall|k: u64|
                    old(self).map@.contains_key(k) ==> #[trigger] self.stamp_of(k) == old(self).stamp_of(k),
                old(self).stamps_bounded() ==> self.stamps_bounded(),
                done ==> ts_ordered(self.heap@),
            decreases (if done { 0int } else { 1int }) + c,
        {
            if c == 0 {
                proof {
                    assert forall|k: int| 1 <= k < self.heap@.len() implies self.heap@[(k - 1)
                        / 2].timestamp <= (#[trigger] self.heap@[k]).timestamp by {}
                }
                done = true;
            } else {
                let p = (c - 1) / 2;
                if self.heap[c].timestamp < self.heap[p].timestamp {
                    let ghost s0 = *self;
                    self.swap_entries(c, p);
                    proof {
                        assert forall|k: int|
                            1 <= k < self.heap@.len() && k != p as int implies self.heap@[(k - 1)
                            / 2].timestamp <= (#[trigger] self.heap@[k]).timestamp by {
                            if k == c as int {
                                assert(self.heap@[k] == s0.heap@[p as int]);
                                assert(self.heap@[(k - 1) / 2] == s0.heap@[c as int]);
                            } else if (k - 1) / 2 == c as int {
                                assert(self.heap@[k] == s0.heap@[k]);
                                assert(self.heap@[(k - 1) / 2] == s0.heap@[p as int]);
                            } else if (k - 1) / 2 == p as int {
                                assert(self.heap@[k] == s0.heap@[k]);
                                assert(self.heap@[(k - 1) / 2] == s0.heap@[c as int]);
                                assert(s0.heap@[c as int].timestamp < s0.heap@[p as int].timestamp);
                                assert(s0.heap@[p as int].timestamp <= s0.heap@[k].timestamp);
                            } else {
                                assert(self.heap@[k] == s0.heap@[k]);
                                assert(self.heap@[(k - 1) / 2] == s0.heap@[(k - 1) / 2]);
                            }
                        }
                        assert forall|k: int|
                            1 <= k < self.heap@.len() && (k - 1) / 2 == p as int && p as int
                            >= 1 implies self.heap@[(p as int - 1) / 2].timestamp <= (
                        #[trigger] self.heap@[k]).timestamp by {
                            assert(self.heap@[(p as int - 1) / 2] == s0.heap@[(p as int - 1) / 2]);
                            assert(s0.heap@[(p as int - 1) / 2].timestamp
                                <= s0.heap@[p as int].timestamp);
                            if k == c as int {
                                assert(self.heap@[k] == s0.heap@[p as int]);
                            } else {
                                assert(self.heap@[k] == s0.heap@[k]);
                                assert(s0.heap@[p as int].timestamp <= s0.heap@[k].timestamp);
                            }
                        }
                    }
                    c = p;
                } else {
                    proof {
                        assert forall|k: int| 1 <= k < self.heap@.len() implies self.heap@[(k - 1)
                            / 2].timestamp <= (#[trigger] self.heap@[k]).timestamp by {}
                    }
                    done = true;
                }
            }
        }
    }

    /// Sift the heap node at `p` down by timestamp, keeping the map's heap
    /// indices in step with every swap.
    fn sort_down(&mut self, p: usize)
        requires
            old(self).sync(),
            ts_ordered_except_down(old(self).heap@, p as int),
        ensures
            final(self).sync(),
            ts_ordered(final(self).heap@),
            final(self).capacity == old(self).capacity,
            final(self).clock == old(self).clock,
            final(self).heap@.len() == old(self).heap@.len(),
            final(self).map@.dom() == old(self).map@.dom(),
            forall|k: u64|
                old(self).map@.contains_key(k) ==> final(self).map@[k].block == old(self).map@[k].block,
            forall|k: u64|
                old(self).map@.contains_key(k) ==> #[trigger] final(self).stamp_of(k) == old(self).stamp_of(k),
            old(self).stamps_bounded() ==> final(self).stamps_bounded(),
    {
        if p >= self.heap.len() {
            proof {
                assert forall|c: int| 1 <= c < self.heap@.len() implies self.heap@[(c - 1)
                    / 2].timestamp <= (#[trigger] self.heap@[c]).timestamp by {
                    assert((c - 1) / 2 != p as int);
                }
            }
            return ;
        }
        let mut p = p;
        let mut done = false;
        while !done
            invariant
                self.sync(),
                p < self.heap@.len(),
                ts_ordered_except_down(self.heap@, p as int),
                self.capacity == old(self).capacity,
                self.clock == old(self).clock,
                self.heap@.len() == old(self).heap@.len(),
                self.map@.dom() == old(self).map@.dom(),
                forall|k: u64|
                    old(self).map@.contains_key(k) ==> self.map@[k].block == old(self).map@[k].block,
                forall|k: u64|
                    old(self).map@.contains_key(k) ==> #[trigger] self.stamp_of(k) == old(self).stamp_of(k),
                old(self).stamps_bounded() ==> self.stamps_bounded(),
                done ==> ts_ordered(self.heap@),
            decreases (if done { 0int } else { 1int }) + self.heap@.len() - p,
        {
            let length = self.heap.len();
            let mut s = p;
            if p <= (usize::MAX - 1) / 2 {
                let left = p * 2 + 1;
                if left < length {
                    if self.heap[left].timestamp < self.heap[p].timestamp {
                        s = left;
                    }
                    if left < usize::MAX {
                        let right = left + 1;
                        if right < length && self.heap[right].timestamp < self.heap[s].timestamp {
                            s = right;
                        }
                    }
                }
            }
            if s == p {
                proof {
                    assert forall|c: int| 1 <= c < self.heap@.len() implies self.heap@[(c - 1)
                        / 2].timestamp <= (#[trigger] self.heap@[c]).timestamp by {
                        if (c - 1) / 2 == p as int {
                            assert(c == 2 * (p as int) + 1 || c == 2 * (p as int) + 2);
                        }
                    }
                }
                done = true;
            } else {
                let ghost s0 = *self;
                self.swap_entries(p, s);
                proof {
                    assert forall|c: int|
                        1 <= c < self.heap@.len() && (c - 1) / 2 != s as int implies self.heap@[(c
                        - 1) / 2].timestamp <= (#[trigger] self.heap@[c]).timestamp by {
                        if c == s as int {
                            assert(self.heap@[c] == s0.heap@[p as int]);
                            assert((c - 1) / 2 == p as int);
                            assert(self.heap@[(c - 1) / 2] == s0.heap@[s as int]);
                            assert(s0.heap@[s as int].timestamp < s0.heap@[p as int].timestamp);
                        } else if (c - 1) / 2 == p as int {
                            assert(self.heap@[c] == s0.heap@[c]);
                            assert(self.heap@[(c - 1) / 2] == s0.heap@[s as int]);
                        } else if c == p as int {
                            assert(self.heap@[c] == s0.heap@[s as int]);
                            assert(self.heap@[(c - 1) / 2] == s0.heap@[(c - 1) / 2]);
                        } else {
                            assert(self.heap@[c] == s0.heap@[c]);
                            assert(self.heap@[(c - 1) / 2] == s0.heap@[(c - 1) / 2]);
                        }
                    }
                    assert forall|c: int|
                        1 <= c < self.heap@.len() && (c - 1) / 2 == s as int && s as int
                        >= 1 implies self.heap@[(s as int - 1) / 2].timestamp <= (
                    #[trigger] self.heap@[c]).timestamp by {
                        assert(self.heap@[c] == s0.heap@[c]);
                        assert((s as int - 1) / 2 == p as int);
                        assert(self.heap@[p as int] == s0.heap@[s as int]);
                        assert(s0.heap@[s as int].timestamp <= s0.heap@[c].timestamp);
                    }
                }
                p = s;
            }
        }
    }

    /// Swap two heap nodes and repoint their map entries.
    fn swap_entries(&mut self, a: usize, b: usize)
        requires
            old(self).sync(),
            a < old(self).heap@.len(),
            b < old(self).heap@.len(),
            a != b,
        ensures
            final(self).sync(),
            final(self).capacity == old(self).capacity,
            final(self).clock == old(self).clock,
            final(self).heap@.len() == old(self).heap@.len(),
            final(self).heap@[a as int] == old(self).heap@[b as int],
            final(self).heap@[b as int] == old(self).heap@[a as int],
            forall|i: int|
                0 <= i < old(self).heap@.len() && i != a as int && i != b as int ==> final(self).heap@[i] == old(self).heap@[i],
            final(self).map@.dom() == old(self).map@.dom(),
            forall|k: u64|
                old(self).map@.contains_key(k) ==> final(self).map@[k].block == old(self).map@[k].block,
            forall|k: u64|
                old(self).map@.contains_key(k) ==> #[trigger] final(self).stamp_of(k) == old(self).stamp_of(k),
            old(self).stamps_bounded() ==> final(self).stamps_bounded(),
    {
        let ghost pre = *self;
        let ha = self.heap[a];
        let hb = self.heap[b];
        proof {
            assert(pre.map@[ha.block_num].heap_idx == a);
            assert(pre.map@[hb.block_num].heap_idx == b);
            assert(ha.block_num != hb.block_num);
        }
        let item_a = match self.map.get(&ha.block_num) {
            Some(item) => *item,
            None => vstd::pervasive::unreached(),
        };
        let item_b = match self.map.get(&hb.block_num) {
            Some(item) => *item,
            None => vstd::pervasive::unreached(),
        };
        self.map.insert(ha.block_num, MapItem { heap_idx: b, block: item_a.block });
        self.map.insert(hb.block_num, MapItem { heap_idx: a, block: item_b.block });
        self.heap.set(a, hb);
        self.heap.set(b, ha);
        proof {
            assert(self.map@.dom() =~= pre.map@.dom());
            assert forall|i: int|
                0 <= i < self.heap@.len() implies self.map@.contains_key(
                #[trigger] self.heap@[i].block_num,
            ) && self.map@[self.heap@[i].block_num].heap_idx == i by {
                if i == a as int {
                    assert(self.heap@[i] == hb);
                } else if i == b as int {
                    assert(self.heap@[i] == ha);
                } else {
                    assert(self.heap@[i] == pre.heap@[i]);
                    assert(pre.map@[self.heap@[i].block_num].heap_idx == i);
                    assert(self.heap@[i].block_num != ha.block_num);
                    assert(self.heap@[i].block_num != hb.block_num);
                }
            }
            assert forall|k: u64| self.map@.contains_key(k) implies (
            #[trigger] self.map@[k]).heap_idx < self.heap@.len() && self.heap@[self.map@[k].heap_idx as int].block_num
                == k by {
                if k == ha.block_num {
                    assert(self.map@[k].heap_idx == b);
                } else if k == hb.block_num {
                    assert(self.map@[k].heap_idx == a);
                } else {
                    assert(pre.map@[k].heap_idx == self.map@[k].heap_idx);
                    let idx = pre.map@[k].heap_idx as int;
                    assert(pre.heap@[idx].block_num == k);
                    assert(idx != a as int && idx != b as int);
                    assert(self.heap@[idx] == pre.heap@[idx]);
                }
            }
            assert forall|k: u64| self.map@.contains_key(k) implies #[trigger] self.stamp_of(k)
                == pre.stamp_of(k) by {
                if k == ha.block_num {
                    assert(self.heap@[b as int] == ha);
                } else if k == hb.block_num {
                    assert(self.heap@[a as int] == hb);
                } else {
                    let idx = pre.map@[k].heap_idx as int;
                    assert(self.heap@[idx] == pre.heap@[idx]);
                }
            }
            if pre.stamps_bounded() {
                assert forall|i: int| 0 <= i < self.heap@.len() implies (
                #[trigger] self.heap@[i]).timestamp <= self.clock by {
                    if i == a as int {
                        assert(self.heap@[i] == pre.heap@[b as int]);
                    } else if i == b as int {
                        assert(self.heap@[i] == pre.heap@[a as int]);
                    } else {
                        assert(self.heap@[i] == pre.heap@[i]);
                    }
                }
            }
        }
    }
}

} // verus!
