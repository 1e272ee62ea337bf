//! Array-backed binary heaps over 64-bit keys: free heap operations over a
//! `Vec<u64>` plus the `MinHeap` / `MaxHeap` containers.
//!
//! A heap is ordered by `HeapType`: in a min-heap every parent is at most its
//! children, in a max-heap at least. The element at index `c` has its parent
//! at `(c - 1) / 2`.

use vstd::prelude::*;
use vstd::seq_lib::group_to_multiset_ensures;

verus! {

/// An enumeration of the error kinds of the heap operations.
#[derive(Debug, Copy, Clone, PartialEq, Eq, Structural)]
pub enum ErrorKind {
    InvalidIndex,
    InvalidOrdering,
    EmptyHeap,
}

/// An error: a kind together with a short static description.
#[derive(Debug, Copy, Clone)]
pub struct Error {
    pub kind: ErrorKind,
    pub message: &'static str,
}

impl Error {
    pub fn new(kind: ErrorKind, message: &'static str) -> (r: Self)
        ensures
            r.kind == kind,
            r.message == message,
    {
        Error { kind, message }
    }
}

/// The result type of the heap operations.
pub type Result<T> = core::result::Result<T, Error>;

/// Which extremum the root holds.
#[derive(Debug, Clone, Copy, PartialEq, Eq, Structural)]
pub enum HeapType {
    MinHeap,
    MaxHeap,
}

/// `a` may stand at or above `b` in a heap of type `t`.
pub open spec fn heap_le(t: HeapType, a: u64, b: u64) -> bool {
    match t {
        HeapType::MinHeap => a <= b,
        HeapType::MaxHeap => a >= b,
    }
}

/// The heap shape over the prefix `[0, end)`: every child is below its
/// parent.
pub open spec fn is_heap_upto(t: HeapType, s: Seq<u64>, end: int) -> bool {
    forall|c: int| 1 <= c < end ==> heap_le(t, s[(c - 1) / 2], #[trigger] s[c])
}

/// The heap shape over the whole sequence.
pub open spec fn is_heap(t: HeapType, s: Seq<u64>) -> bool {
    is_heap_upto(t, s, s.len() as int)
}

/// The heap shape over `[0, end)` except on the two edges leaving `p`, whose
/// far ends are still below `p`'s own parent.
pub open spec fn heap_except_down(t: HeapType, s: Seq<u64>, p: int, end: int) -> bool {
    &&& forall|c: int|
        1 <= c < end && (c - 1) / 2 != p ==> heap_le(t, s[(c - 1) / 2], #[trigger] s[c])
    &&& forall|c: int|
        1 <= c < end && (c - 1) / 2 == p && p >= 1 ==> heap_le(t, s[(p - 1) / 2], #[trigger] s[c])
}

/// The heap shape except on the edge into `c`, whose children are still
/// below `c`'s own parent.
pub open spec fn heap_except_up(t: HeapType, s: Seq<u64>, c: int) -> bool {
    &&& forall|k: int| 1 <= k < s.len() && k != c ==> heap_le(t, s[(k - 1) / 2], #[trigger] s[k])
    &&& forall|k: int|
        1 <= k < s.len() && (k - 1) / 2 == c && c >= 1 ==> heap_le(t, s[(c - 1) / 2], #[trigger] s[k])
}

/// `v` occurs in the prefix `[0, end)` of `s`.
pub open spec fn within(v: u64, s: Seq<u64>, end: int) -> bool {
    exists|m: int| 0 <= m < end && v == s[m]
}

/// Swapping two elements leaves the multiset of the sequence unchanged.
proof fn lemma_swap_multiset(s: Seq<u64>, i: int, j: int)
    requires
        0 <= i < s.len(),
        0 <= j < s.len(),
        i != j,
    ensures
        s.update(i, s[j]).update(j, s[i]).to_multiset() == s.to_multiset(),
{
    broadcast use group_to_multiset_ensures;

    let m = s.to_multiset();
    let s1 = s.update(i, s[j]);
    let s2 = s1.update(j, s[i]);
    assert(s1[j] == s[j]);
    assert(s1.to_multiset() == m.insert(s[j]).remove(s[i]));
    assert(s2.to_multiset() == s1.to_multiset().insert(s[i]).remove(s1[j]));
    assert(s.contains(s[i])) by {
        assert(s[i] == s[i]);
    }
    assert(m.count(s[i]) > 0);
    assert(s2.to_multiset() =~= m);
}

fn strictly_above(t: HeapType, a: u64, b: u64) -> (r: bool)
    ensures
        r == !heap_le(t, b, a),
{
    match t {
        HeapType::MinHeap => a < b,
        HeapType::MaxHeap => a > b,
    }
}

/// Sift the element at `p` down within the prefix `[0, end)` until both its
/// children are below it.
fn sort_down(heap: &mut Vec<u64>, heap_type: HeapType, p: usize, end: usize)
    requires
        end <= old(heap)@.len(),
        end <= usize::MAX / 2,
        p <= usize::MAX / 2,
    ensures
        final(heap)@.len() == old(heap)@.len(),
        final(heap)@.to_multiset() == old(heap)@.to_multiset(),
        forall|k: int| end <= k < old(heap)@.len() ==> final(heap)@[k] == old(heap)@[k],
        forall|k: int|
            0 <= k < end ==> #[trigger] within(final(heap)@[k], old(heap)@, end as int),
        heap_except_down(heap_type, old(heap)@, p as int, end as int) ==> is_heap_upto(
            heap_type,
            final(heap)@,
            end as int,
        ),
{
    broadcast use group_to_multiset_ensures;

    let ghost ok = heap_except_down(heap_type, old(heap)@, p as int, end as int);
    proof {
        assert forall|k: int| 0 <= k < end implies #[trigger] within(
            heap@[k],
            old(heap)@,
            end as int,
        ) by {
            assert(heap@[k] == old(heap)@[k]);
        }
    }
    if p >= end {
        proof {
            if ok {
                assert forall|c: int| 1 <= c < end implies heap_le(
                    heap_type,
                    heap@[(c - 1) / 2],
                    #[trigger] heap@[c],
                ) by {
                    assert((c - 1) / 2 != p as int);
                }
            }
        }
        return ;
    }
    let mut p = p;
    let mut done = false;
    while !done
        invariant
            end <= heap@.len(),
            end <= usize::MAX / 2,
            p < end,
            heap@.len() == old(heap)@.len(),
            heap@.to_multiset() == old(heap)@.to_multiset(),
            forall|k: int| end <= k < old(heap)@.len() ==> heap@[k] == old(heap)@[k],
            forall|k: int|
                0 <= k < end ==> #[trigger] within(heap@[k], old(heap)@, end as int),
            ok ==> heap_except_down(heap_type, heap@, p as int, end as int),
            done ==> (ok ==> is_heap_upto(heap_type, heap@, end as int)),
        decreases (if done { 0int } else { 1int }) + end - p,
    {
        let left = p * 2 + 1;
        let mut x = p;
        if left < end {
            if strictly_above(heap_type, heap[left], heap[p]) {
                x = left;
            }
            let right = left + 1;
            if right < end && strictly_above(heap_type, heap[right], heap[x]) {
                x = right;
            }
        }
        if x == p {
            proof {
                if ok {
                    assert forall|c: int| 1 <= c < end implies heap_le(
                        heap_type,
                        heap@[(c - 1) / 2],
                        #[trigger] heap@[c],
                    ) by {
                        if (c - 1) / 2 == p as int {
                            assert(c == 2 * (p as int) + 1 || c == 2 * (p as int) + 2);
                        }
                    }
                }
            }
            done = true;
        } else {
            let ghost s0 = heap@;
            let a = heap[p];
            let b = heap[x];
            heap.set(p, b);
            heap.set(x, a);
            proof {
                lemma_swap_multiset(s0, p as int, x as int);
                assert(heap@ =~= s0.update(p as int, s0[x as int]).update(x as int, s0[p as int]));
                assert forall|k: int| 0 <= k < end implies #[trigger] within(
                    heap@[k],
                    old(heap)@,
                    end as int,
                ) by {
                    if k == p as int {
                        assert(heap@[k] == s0[x as int]);
                        assert(within(s0[x as int], old(heap)@, end as int));
                    } else if k == x as int {
                        assert(heap@[k] == s0[p as int]);
                        assert(within(s0[p as int], old(heap)@, end as int));
                    } else {
                        assert(heap@[k] == s0[k]);
                        assert(within(s0[k], old(heap)@, end as int));
                    }
                }
                if ok {
                    assert forall|c: int|
                        1 <= c < end && (c - 1) / 2 != x as int implies heap_le(
                        heap_type,
                        heap@[(c - 1) / 2],
                        #[trigger] heap@[c],
                    ) by {
                        if c == x as int {
                            assert(heap@[c] == s0[p as int]);
                        } else if (c - 1) / 2 == p as int {
                            assert(heap@[c] == s0[c]);
                            assert(heap@[(c - 1) / 2] == s0[x as int]);
                        } else if c == p as int {
                            assert(heap@[c] == s0[x as int]);
                        }
                    }
                    assert forall|c: int|
                        1 <= c < end && (c - 1) / 2 == x as int && x as int >= 1 implies heap_le(
                        heap_type,
                        heap@[(x as int - 1) / 2],
                        #[trigger] heap@[c],
                    ) by {
                        assert(heap@[c] == s0[c]);
                        assert((x as int - 1) / 2 == p as int);
                        assert(heap@[p as int] == s0[x as int]);
                        assert(heap_le(heap_type, s0[x as int], s0[c]));
                    }
                }
            }
            p = x;
        }
    }
}

/// Sift the element at `c` up until its parent is at or above it.
fn sort_up(heap: &mut Vec<u64>, heap_type: HeapType, c: usize)
    requires
        c < old(heap)@.len() || c == 0,
    ensures
        final(heap)@.len() == old(heap)@.len(),
        final(heap)@.to_multiset() == old(heap)@.to_multiset(),
        heap_except_up(heap_type, old(heap)@, c as int) ==> is_heap(heap_type, final(heap)@),
{
    broadcast use group_to_multiset_ensures;

    let ghost ok = heap_except_up(heap_type, old(heap)@, c as int);
    let mut c = c;
    let mut done = false;
    while !done
        invariant
            c < heap@.len() || c == 0,
            heap@.len() == old(heap)@.len(),
            heap@.to_multiset() == old(heap)@.to_multiset(),
            ok ==> heap_except_up(heap_type, heap@, c as int),
            done ==> (ok ==> is_heap(heap_type, heap@)),
        decreases (if done { 0int } else { 1int }) + c,
    {
        if c == 0 {
            proof {
                if ok {
                    assert(is_heap(heap_type, heap@));
                }
            }
            done = true;
        } else {
            let p = (c - 1) / 2;
            if strictly_above(heap_type, heap[c], heap[p]) {
                let ghost s0 = heap@;
                let a = heap[p];
                let b = heap[c];
                heap.set(p, b);
                heap.set(c, a);
                proof {
                    lemma_swap_multiset(s0, p as int, c as int);
                    assert(heap@ =~= s0.update(p as int, s0[c as int]).update(
                        c as int,
                        s0[p as int],
                    ));
                    if ok {
                        assert forall|k: int|
                            1 <= k < heap@.len() && k != p as int implies heap_le(
                            heap_type,
                            heap@[(k - 1) / 2],
                            #[trigger] heap@[k],
                        ) by {
                            if k == c as int {
                                assert(heap@[k] == s0[p as int]);
                                assert(heap@[(k - 1) / 2] == s0[c as int]);
                            } else if (k - 1) / 2 == c as int {
                                assert(heap@[k] == s0[k]);
                                assert(heap@[(k - 1) / 2] == s0[p as int]);
                            } else if (k - 1) / 2 == p as int {
                                assert(heap@[k] == s0[k]);
                                assert(heap@[(k - 1) / 2] == s0[c as int]);
                                assert(heap_le(heap_type, s0[c as int], s0[p as int]));
                                assert(heap_le(heap_type, s0[p as int], s0[k]));
                            }
                        }
                        assert forall|k: int|
                            1 <= k < heap@.len() && (k - 1) / 2 == p as int && p as int
                            >= 1 implies heap_le(
                            heap_type,
                            heap@[(p as int - 1) / 2],
                            #[trigger] heap@[k],
                        ) by {
                            assert(heap@[(p as int - 1) / 2] == s0[(p as int - 1) / 2]);
                            assert(heap_le(heap_type, s0[(p as int - 1) / 2], s0[p as int]));
                            if k == c as int {
                                assert(heap@[k] == s0[p as int]);
                            } else {
                                assert(heap@[k] == s0[k]);
                                assert(heap_le(heap_type, s0[p as int], s0[k]));
                            }
                        }
                    }
                }
                c = p;
            } else {
                proof {
                    if ok {
                        assert(heap_le(heap_type, heap@[(c as int - 1) / 2], heap@[c as int]));
                        assert forall|k: int| 1 <= k < heap@.len() implies heap_le(
                            heap_type,
                            heap@[(k - 1) / 2],
                            #[trigger] heap@[k],
                        ) by {}
                    }
                }
                done = true;
            }
        }
    }
}

/// Insert an element into a heap, preserving the heap shape.
pub fn insert(heap: &mut Vec<u64>, heap_type: HeapType, element: u64)
    requires
        is_heap(heap_type, old(heap)@),
        old(heap)@.len() < usize::MAX,
    ensures
        final(heap)@.len() == old(heap)@.len() + 1,
        final(heap)@.to_multiset() == old(heap)@.to_multiset().insert(element),
        is_heap(heap_type, final(heap)@),
{
    broadcast use group_to_multiset_ensures;

    let c = heap.len();
    heap.push(element);
    proof {
        assert forall|k: int|
            1 <= k < heap@.len() && k != c as int implies heap_le(
            heap_type,
            heap@[(k - 1) / 2],
            #[trigger] heap@[k],
        ) by {
            assert(heap@[k] == old(heap)@[k]);
            assert(heap@[(k - 1) / 2] == old(heap)@[(k - 1) / 2]);
        }
        assert(heap_except_up(heap_type, heap@, c as int));
    }
    sort_up(heap, heap_type, c);
}

/// The index of the first occurrence of `element`, scanning linearly.
pub fn find(heap: &[u64], element: &u64) -> (r: Option<usize>)
    ensures
        match r {
            Some(i) => {
                &&& i < heap@.len()
                &&& heap@[i as int] == *element
                &&& forall|j: int| 0 <= j < i ==> heap@[j] != *element
            },
            None => !heap@.contains(*element),
        },
{
    let mut i: usize = 0;
    while i < heap.len()
        invariant
            i <= heap@.len(),
            forall|j: int| 0 <= j < i ==> heap@[j] != *element,
        decreases heap@.len() - i,
    {
        if heap[i] == *element {
            return Some(i);
        }
        i += 1;
    }
    proof {
        assert(!heap@.contains(*element));
    }
    None
}

/// Remove the element at `index`, filling the hole with the last element and
/// sifting it down, exactly as the in-place removal works. The heap shape is
/// restored when the removal is at the root; a removal in the middle can
/// leave the filler above a smaller parent, and then only the multiset
/// content is promised.
pub fn remove(heap: &mut Vec<u64>, heap_type: HeapType, index: usize) -> (r: Result<u64>)
    requires
        is_heap(heap_type, old(heap)@),
        old(heap)@.len() <= usize::MAX / 2,
    ensures
        match r {
            Ok(v) => {
                &&& index < old(heap)@.len()
                &&& v == old(heap)@[index as int]
                &&& final(heap)@.len() == old(heap)@.len() - 1
                &&& final(heap)@.to_multiset() == old(heap)@.to_multiset().remove(v)
                &&& (index == 0 ==> is_heap(heap_type, final(heap)@))
            },
            Err(e) => {
                &&& *final(heap) == *old(heap)
                &&& e.kind == (if old(heap)@.len() == 0 {
                    ErrorKind::EmptyHeap
                } else {
                    ErrorKind::InvalidIndex
                })
                &&& (old(heap)@.len() > 0 ==> index >= old(heap)@.len())
            },
        },
{
    broadcast use group_to_multiset_ensures;

    if heap.len() == 0 {
        return Err(Error::new(ErrorKind::EmptyHeap, "can not remove elements from an empty heap"));
    }
    if index >= heap.len() {
        return Err(Error::new(ErrorKind::InvalidIndex, "index is beyond the end of the heap"));
    }
    let ghost s0 = heap@;
    let removed = heap.swap_remove(index);
    proof {
        let u = s0.update(index as int, s0.last());
        assert(u.drop_last() =~= u.remove(u.len() - 1));
        assert(u.remove(u.len() - 1).to_multiset() == u.to_multiset().remove(u.last()));
        assert(u.to_multiset() == s0.to_multiset().insert(s0.last()).remove(s0[index as int]));
        assert(u.last() == s0.last());
        assert(s0.contains(s0[index as int])) by {
            assert(s0[index as int] == s0[index as int]);
        }
        assert(heap@.to_multiset() =~= s0.to_multiset().remove(s0[index as int]));
        if index == 0 {
            assert forall|c: int|
                1 <= c < heap@.len() && (c - 1) / 2 != 0 implies heap_le(
                heap_type,
                heap@[(c - 1) / 2],
                #[trigger] heap@[c],
            ) by {
                assert(heap@[c] == s0[c]);
                assert(heap@[(c - 1) / 2] == s0[(c - 1) / 2]);
            }
            assert(heap_except_down(heap_type, heap@, 0, heap@.len() as int));
        }
    }
    let end = heap.len();
    sort_down(heap, heap_type, index, end);
    Ok(removed)
}

/// Remove and return the top of the heap: the minimum of a min-heap, the
/// maximum of a max-heap.
pub fn extract(heap: &mut Vec<u64>, heap_type: HeapType) -> (r: Result<u64>)
    requires
        is_heap(heap_type, old(heap)@),
        old(heap)@.len() <= usize::MAX / 2,
    ensures
        match r {
            Ok(v) => {
                &&& old(heap)@.len() > 0
                &&& v == old(heap)@[0]
                &&& forall|k: int|
                    0 <= k < old(heap)@.len() ==> heap_le(heap_type, v, #[trigger] old(heap)@[k])
                &&& final(heap)@.len() == old(heap)@.len() - 1
                &&& final(heap)@.to_multiset() == old(heap)@.to_multiset().remove(v)
                &&& is_heap(heap_type, final(heap)@)
            },
            Err(e) => {
                &&& old(heap)@.len() == 0
                &&& *final(heap) == *old(heap)
                &&& e.kind == ErrorKind::EmptyHeap
            },
        },
{
    proof {
        if old(heap)@.len() > 0 {
            assert forall|k: int| 0 <= k < old(heap)@.len() implies heap_le(
                heap_type,
                old(heap)@[0],
                #[trigger] old(heap)@[k],
            ) by {
                lemma_root_prefix_extremal(heap_type, old(heap)@, k, old(heap)@.len() as int);
            }
        }
    }
    remove(heap, heap_type, 0)
}

/// In a heap prefix, the root is at or above every prefix element.
proof fn lemma_root_prefix_extremal(t: HeapType, s: Seq<u64>, k: int, end: int)
    requires
        is_heap_upto(t, s, end),
        0 <= k < end,
        end <= s.len(),
    ensures
        heap_le(t, s[0], s[k]),
    decreases k,
{
    if k > 0 {
        lemma_root_prefix_extremal(t, s, (k - 1) / 2, end);
    }
}

/// Replace the first occurrence of `element` with `replace_with` and restore
/// the heap shape around it; `None` when the element is absent.
pub fn update(heap: &mut Vec<u64>, heap_type: HeapType, element: &u64, replace_with: &u64) -> (r:
    Option<()>)
    requires
        is_heap(heap_type, old(heap)@),
        old(heap)@.len() <= usize::MAX / 2,
    ensures
        match r {
            Some(()) => {
                &&& old(heap)@.contains(*element)
                &&& final(heap)@.len() == old(heap)@.len()
                &&& final(heap)@.to_multiset() == old(heap)@.to_multiset().insert(
                    *replace_with,
                ).remove(*element)
                &&& is_heap(heap_type, final(heap)@)
            },
            None => {
                &&& !old(heap)@.contains(*element)
                &&& *final(heap) == *old(heap)
            },
        },
{
    broadcast use group_to_multiset_ensures;

    match find(heap.as_slice(), element) {
        Some(i) => {
            let ghost s0 = heap@;
            heap.set(i, *replace_with);
            proof {
                assert(s0.contains(*element)) by {
                    assert(s0[i as int] == *element);
                }
            }
            if strictly_above(heap_type, *replace_with, *element) {
                proof {
                    assert forall|k: int|
                        1 <= k < heap@.len() && k != i as int implies heap_le(
                        heap_type,
                        heap@[(k - 1) / 2],
                        #[trigger] heap@[k],
                    ) by {
                        assert(heap@[k] == s0[k]);
                        if (k - 1) / 2 == i as int {
                            assert(heap_le(heap_type, s0[i as int], s0[k]));
                        } else {
                            assert(heap@[(k - 1) / 2] == s0[(k - 1) / 2]);
                        }
                    }
                    assert forall|k: int|
                        1 <= k < heap@.len() && (k - 1) / 2 == i as int && i as int >= 1
                        implies heap_le(heap_type, heap@[(i as int - 1) / 2], #[trigger] heap@[k]) by {
                        assert(heap@[k] == s0[k]);
                        assert(heap@[(i as int - 1) / 2] == s0[(i as int - 1) / 2]);
                        assert(heap_le(heap_type, s0[(i as int - 1) / 2], s0[i as int]));
                        assert(heap_le(heap_type, s0[i as int], s0[k]));
                    }
                    assert(heap_except_up(heap_type, heap@, i as int));
                }
                sort_up(heap, heap_type, i);
            } else {
                proof {
                    assert forall|c: int|
                        1 <= c < heap@.len() && (c - 1) / 2 != i as int implies heap_le(
                        heap_type,
                        heap@[(c - 1) / 2],
                        #[trigger] heap@[c],
                    ) by {
                        assert(heap@[(c - 1) / 2] == s0[(c - 1) / 2]);
                        if c == i as int {
                            assert(heap_le(heap_type, s0[(c - 1) / 2], s0[c]));
                        } else {
                            assert(heap@[c] == s0[c]);
                        }
                    }
                    assert forall|c: int|
                        1 <= c < heap@.len() && (c - 1) / 2 == i as int && i as int >= 1
                        implies heap_le(heap_type, heap@[(i as int - 1) / 2], #[trigger] heap@[c]) by {
                        assert(heap@[c] == s0[c]);
                        assert(heap@[(i as int - 1) / 2] == s0[(i as int - 1) / 2]);
                        assert(heap_le(heap_type, s0[(i as int - 1) / 2], s0[i as int]));
                        assert(heap_le(heap_type, s0[i as int], s0[c]));
                    }
                    assert(heap_except_down(heap_type, heap@, i as int, heap@.len() as int));
                }
                let end = heap.len();
                sort_down(heap, heap_type, i, end);
            }
            proof {
                assert(heap@.to_multiset() =~= s0.to_multiset().insert(*replace_with).remove(
                    *element,
                ));
            }
            Some(())
        },
        None => None,
    }
}

/// Sort the heap in place: a max-heap ends up ascending, a min-heap
/// descending. The input must already have the heap shape, and at least one
/// element.
pub fn heap_sort(heap: &mut Vec<u64>, heap_type: HeapType)
    requires
        is_heap(heap_type, old(heap)@),
        1 <= old(heap)@.len() <= usize::MAX / 2,
    ensures
        final(heap)@.len() == old(heap)@.len(),
        final(heap)@.to_multiset() == old(heap)@.to_multiset(),
        forall|j: int, k: int|
            0 <= j <= k < final(heap)@.len() ==> heap_le(
                heap_type,
                #[trigger] final(heap)@[k],
                #[trigger] final(heap)@[j],
            ),
{
    broadcast use group_to_multiset_ensures;

    let mut i: usize = heap.len();
    while i > 1
        invariant
            1 <= i <= heap@.len(),
            heap@.len() == old(heap)@.len(),
            heap@.len() <= usize::MAX / 2,
            heap@.to_multiset() == old(heap)@.to_multiset(),
            is_heap_upto(heap_type, heap@, i as int),
            forall|j: int, k: int|
                i <= j <= k < heap@.len() ==> heap_le(
                    heap_type,
                    #[trigger] heap@[k],
                    #[trigger] heap@[j],
                ),
            forall|j: int, k: int|
                0 <= j < i <= k < heap@.len() ==> heap_le(
                    heap_type,
                    #[trigger] heap@[k],
                    #[trigger] heap@[j],
                ),
        decreases i,
    {
        let ghost s0 = heap@;
        proof {
            assert forall|k: int| 0 <= k < i implies heap_le(heap_type, s0[0], #[trigger] s0[k]) by {
                lemma_root_prefix_extremal(heap_type, s0, k, i as int);
            }
        }
        let a = heap[0];
        let b = heap[i - 1];
        heap.set(0, b);
        heap.set(i - 1, a);
        proof {
            lemma_swap_multiset(s0, 0, i - 1);
            assert(heap@ =~= s0.update(0, s0[i - 1]).update(i - 1, s0[0]));
        }
        let ghost s1 = heap@;
        proof {
            assert forall|j: int, k: int| i - 1 <= j <= k < s1.len() implies heap_le(
                heap_type,
                #[trigger] s1[k],
                #[trigger] s1[j],
            ) by {
                if j == i - 1 {
                    if k > j {
                        assert(s1[k] == s0[k]);
                        assert(s1[j] == s0[0]);
                        assert(heap_le(heap_type, s0[k], s0[0]));
                    }
                } else {
                    assert(s1[k] == s0[k] && s1[j] == s0[j]);
                    assert(heap_le(heap_type, s0[k], s0[j]));
                }
            }
            assert forall|j: int, k: int| 0 <= j < i - 1 <= k < s1.len() implies heap_le(
                heap_type,
                #[trigger] s1[k],
                #[trigger] s1[j],
            ) by {
                if j == 0 {
                    assert(s1[j] == s0[i - 1]);
                    if k == i - 1 {
                        assert(s1[k] == s0[0]);
                        assert(heap_le(heap_type, s0[0], s0[i - 1]));
                    } else {
                        assert(s1[k] == s0[k]);
                        assert(heap_le(heap_type, s0[k], s0[i - 1]));
                    }
                } else {
                    assert(s1[j] == s0[j]);
                    if k == i - 1 {
                        assert(s1[k] == s0[0]);
                        assert(heap_le(heap_type, s0[0], s0[j]));
                    } else {
                        assert(s1[k] == s0[k]);
                        assert(heap_le(heap_type, s0[k], s0[j]));
                    }
                }
            }
            assert forall|c: int|
                1 <= c < i - 1 && (c - 1) / 2 != 0 implies heap_le(
                heap_type,
                s1[(c - 1) / 2],
                #[trigger] s1[c],
            ) by {
                assert(s1[c] == s0[c]);
                assert(s1[(c - 1) / 2] == s0[(c - 1) / 2]);
            }
            assert(heap_except_down(heap_type, s1, 0, i - 1));
        }
        i -= 1;
        sort_down(heap, heap_type, 0, i);
        proof {
            let s2 = heap@;
            assert forall|j: int, k: int| 0 <= j < i <= k < s2.len() implies heap_le(
                heap_type,
                #[trigger] s2[k],
                #[trigger] s2[j],
            ) by {
                assert(within(s2[j], s1, i as int));
                let m = choose|m: int| 0 <= m < i && s2[j] == s1[m];
                assert(s2[k] == s1[k]);
                assert(heap_le(heap_type, s1[k], s1[m]));
            }
            assert forall|j: int, k: int| i <= j <= k < s2.len() implies heap_le(
                heap_type,
                #[trigger] s2[k],
                #[trigger] s2[j],
            ) by {
                assert(s2[j] == s1[j] && s2[k] == s1[k]);
                assert(heap_le(heap_type, s1[k], s1[j]));
            }
        }
    }
}

/// The capability set of an array-backed heap container over 64-bit keys.
pub trait Heap: Sized {
    /// The backing array.
    spec fn repr(&self) -> Seq<u64>;

    /// Which extremum the container keeps on top.
    spec fn htype(&self) -> HeapType;

    fn insert(&mut self, element: u64)
        requires
            is_heap(old(self).htype(), old(self).repr()),
            old(self).repr().len() < usize::MAX,
        ensures
            final(self).htype() == old(self).htype(),
            final(self).repr().len() == old(self).repr().len() + 1,
            final(self).repr().to_multiset() == old(self).repr().to_multiset().insert(element),
            is_heap(final(self).htype(), final(self).repr()),
    ;

    fn extract(&mut self) -> (r: Result<u64>)
        requires
            is_heap(old(self).htype(), old(self).repr()),
            old(self).repr().len() <= usize::MAX / 2,
        ensures
            final(self).htype() == old(self).htype(),
            match r {
                Ok(v) => {
                    &&& old(self).repr().len() > 0
                    &&& v == old(self).repr()[0]
                    &&& forall|k: int|
                        0 <= k < old(self).repr().len() ==> heap_le(
                            old(self).htype(),
                            v,
                            #[trigger] old(self).repr()[k],
                        )
                    &&& final(self).repr().len() == old(self).repr().len() - 1
                    &&& final(self).repr().to_multiset() == old(self).repr().to_multiset().remove(
                        v,
                    )
                    &&& is_heap(final(self).htype(), final(self).repr())
                },
                Err(e) => {
                    &&& old(self).repr().len() == 0
                    &&& final(self).repr() == old(self).repr()
                    &&& e.kind == ErrorKind::EmptyHeap
                },
            },
    ;

    fn find(&self, element: &u64) -> (r: Option<usize>)
        ensures
            match r {
                Some(i) => {
                    &&& i < self.repr().len()
                    &&& self.repr()[i as int] == *element
                    &&& forall|j: int| 0 <= j < i ==> self.repr()[j] != *element
                },
                None => !self.repr().contains(*element),
            },
    ;

    fn update(&mut self, element: &u64, replace_with: &u64) -> (r: Option<()>)
        requires
            is_heap(old(self).htype(), old(self).repr()),
            old(self).repr().len() <= usize::MAX / 2,
        ensures
            final(self).htype() == old(self).htype(),
            match r {
                Some(()) => {
                    &&& old(self).repr().contains(*element)
                    &&& final(self).repr().len() == old(self).repr().len()
                    &&& final(self).repr().to_multiset() == old(self).repr().to_multiset().insert(
                        *replace_with,
                    ).remove(*element)
                    &&& is_heap(final(self).htype(), final(self).repr())
                },
                None => {
                    &&& !old(self).repr().contains(*element)
                    &&& final(self).repr() == old(self).repr()
                },
            },
    ;

    fn remove(&mut self, index: usize) -> (r: Result<u64>)
        requires
            is_heap(old(self).htype(), old(self).repr()),
            old(self).repr().len() <= usize::MAX / 2,
        ensures
            final(self).htype() == old(self).htype(),
            match r {
                Ok(v) => {
                    &&& index < old(self).repr().len()
                    &&& v == old(self).repr()[index as int]
                    &&& final(self).repr().len() == old(self).repr().len() - 1
                    &&& final(self).repr().to_multiset() == old(self).repr().to_multiset().remove(
                        v,
                    )
                    &&& (index == 0 ==> is_heap(final(self).htype(), final(self).repr()))
                },
                Err(e) => {
                    &&& final(self).repr() == old(self).repr()
                    &&& e.kind == (if old(self).repr().len() == 0 {
                        ErrorKind::EmptyHeap
                    } else {
                        ErrorKind::InvalidIndex
                    })
                    &&& (old(self).repr().len() > 0 ==> index >= old(self).repr().len())
                },
            },
    ;

    fn count(&self) -> (c: usize)
        ensures
            c == self.repr().len(),
    ;

    fn truncate(&mut self, len: usize)
        ensures
            final(self).htype() == old(self).htype(),
            final(self).repr() == (if len <= old(self).repr().len() {
                old(self).repr().take(len as int)
            } else {
                old(self).repr()
            }),
            is_heap(old(self).htype(), old(self).repr()) ==> is_heap(
                final(self).htype(),
                final(self).repr(),
            ),
    ;

    fn clear(&mut self)
        ensures
            final(self).htype() == old(self).htype(),
            final(self).repr() == Seq::<u64>::empty(),
    ;
}

/// A binary heap whose root is its minimum.
#[derive(Debug, Clone)]
pub struct MinHeap {
    heap: Vec<u64>,
}

impl MinHeap {
    /// A fresh, empty min-heap.
    pub fn new() -> (r: Self)
        ensures
            r.repr() == Seq::<u64>::empty(),
            is_heap(r.htype(), r.repr()),
    {
        MinHeap { heap: Vec::new() }
    }
}

impl Default for MinHeap {
    /// Empty, as `new` returns.
    fn default() -> (r: Self)
        ensures
            r.repr() == Seq::<u64>::empty(),
    {
        MinHeap::new()
    }
}

impl Heap for MinHeap {
    closed spec fn repr(&self) -> Seq<u64> {
        self.heap@
    }

    open spec fn htype(&self) -> HeapType {
        HeapType::MinHeap
    }

    fn insert(&mut self, element: u64) {
        insert(&mut self.heap, HeapType::MinHeap, element);
    }

    fn extract(&mut self) -> (r: Result<u64>) {
        extract(&mut self.heap, HeapType::MinHeap)
    }

    fn find(&self, element: &u64) -> (r: Option<usize>) {
        find(self.heap.as_slice(), element)
    }

    fn update(&mut self, element: &u64, replace_with: &u64) -> (r: Option<()>) {
        update(&mut self.heap, HeapType::MinHeap, element, replace_with)
    }

    fn remove(&mut self, index: usize) -> (r: Result<u64>) {
        remove(&mut self.heap, HeapType::MinHeap, index)
    }

    fn count(&self) -> (c: usize) {
        self.heap.len()
    }

    fn truncate(&mut self, len: usize) {
        self.heap.truncate(len);
        proof {
            lemma_truncate_keeps_heap(HeapType::MinHeap, old(self).repr(), final(self).repr());
        }
    }

    fn clear(&mut self) {
        self.heap.clear();
    }
}

/// A binary heap whose root is its maximum.
#[derive(Debug, Clone)]
pub struct MaxHeap {
    heap: Vec<u64>,
}

impl MaxHeap {
    /// A fresh, empty max-heap.
    pub fn new() -> (r: Self)
        ensures
            r.repr() == Seq::<u64>::empty(),
            is_heap(r.htype(), r.repr()),
    {
        MaxHeap { heap: Vec::new() }
    }
}

impl Default for MaxHeap {
    /// Empty, as `new` returns.
    fn default() -> (r: Self)
        ensures
            r.repr() == Seq::<u64>::empty(),
    {
        MaxHeap::new()
    }
}

impl Heap for MaxHeap {
    closed spec fn repr(&self) -> Seq<u64> {
        self.heap@
    }

    open spec fn htype(&self) -> HeapType {
        HeapType::MaxHeap
    }

    fn insert(&mut self, element: u64) {
        insert(&mut self.heap, HeapType::MaxHeap, element);
    }

    fn extract(&mut self) -> (r: Result<u64>) {
        extract(&mut self.heap, HeapType::MaxHeap)
    }

    fn find(&self, element: &u64) -> (r: Option<usize>) {
        find(self.heap.as_slice(), element)
    }

    fn update(&mut self, element: &u64, replace_with: &u64) -> (r: Option<()>) {
        update(&mut self.heap, HeapType::MaxHeap, element, replace_with)
    }

    fn remove(&mut self, index: usize) -> (r: Result<u64>) {
        remove(&mut self.heap, HeapType::MaxHeap, index)
    }

    fn count(&self) -> (c: usize) {
        self.heap.len()
    }

    fn truncate(&mut self, len: usize) {
        self.heap.truncate(len);
        proof {
            lemma_truncate_keeps_heap(HeapType::MaxHeap, old(self).repr(), final(self).repr());
        }
    }

    fn clear(&mut self) {
        self.heap.clear();
    }
}

/// A prefix of a heap still has the heap shape.
proof fn lemma_truncate_keeps_heap(t: HeapType, s: Seq<u64>, pre: Seq<u64>)
    requires
        pre.len() <= s.len(),
        forall|k: int| 0 <= k < pre.len() ==> pre[k] == s[k],
    ensures
        is_heap(t, s) ==> is_heap(t, pre),
{
    if is_heap(t, s) {
        assert forall|c: int| 1 <= c < pre.len() implies heap_le(t, pre[(c - 1) / 2], #[trigger] pre[c]) by {
            assert(heap_le(t, s[(c - 1) / 2], s[c]));
        }
    }
}

} // verus!
