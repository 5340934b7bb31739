//! Sorting keys and dropping the repeats: a merge sort over the order that
//! the ranks of the keys give.

use vstd::prelude::*;
use crate::ordered_map::{is_listing_of, Key};
use crate::sequences::{lemma_prefix_members, lemma_push_members};

verus! {

/// No key stands before a key of smaller rank.
pub open spec fn non_descending<K: Key>(s: Seq<K>) -> bool {
    forall|i: int, j: int| 0 <= i < j < s.len() ==> (#[trigger] s[i]).rank() <= (#[trigger] s[j]).rank()
}

/// Merges two sorted vectors into one.
fn merge<K: Key>(left: &Vec<K>, right: &Vec<K>) -> (out: Vec<K>)
    requires
        non_descending(left@),
        non_descending(right@),
    ensures
        non_descending(out@),
        out@.len() == left@.len() + right@.len(),
        forall|k: K| out@.contains(k) <==> left@.contains(k) || right@.contains(k),
{
    let mut out: Vec<K> = Vec::new();
    let mut i: usize = 0;
    let mut j: usize = 0;
    proof {
        assert forall|k: K| !left@.take(0).contains(k) && !right@.take(0).contains(k) by {
            assert(left@.take(0).len() == 0 && right@.take(0).len() == 0);
        }
    }
    while i < left.len() || j < right.len()
        invariant
            i <= left@.len(),
            j <= right@.len(),
            out@.len() == i + j,
            non_descending(left@),
            non_descending(right@),
            non_descending(out@),
            forall|a: int, b: int|
                0 <= a < out@.len() && i <= b < left@.len() ==> (#[trigger] out@[a]).rank() <= (
                #[trigger] left@[b]).rank(),
            forall|a: int, b: int|
                0 <= a < out@.len() && j <= b < right@.len() ==> (#[trigger] out@[a]).rank() <= (
                #[trigger] right@[b]).rank(),
            forall|k: K|
                out@.contains(k) <==> left@.take(i as int).contains(k) || right@.take(
                    j as int,
                ).contains(k),
        decreases left@.len() - i + right@.len() - j,
    {
        let ghost before = out@;
        let from_left = if i >= left.len() {
            false
        } else if j >= right.len() {
            true
        } else {
            !right[j].precedes(&left[i])
        };
        if from_left {
            let key = left[i];
            out.push(key);
            proof {
                assert forall|k: K|
                    out@.contains(k) <==> left@.take(i + 1).contains(k) || right@.take(
                        j as int,
                    ).contains(k) by {
                    lemma_push_members(before, key, k);
                    lemma_prefix_members(left@, i as int, k);
                }
                assert forall|a: int, b: int| 0 <= a < b < out@.len() implies (#[trigger] out@[a]).rank()
                    <= (#[trigger] out@[b]).rank() by {
                    if b == before.len() {
                        assert(out@[a] == before[a]);
                        assert(before[a].rank() <= left@[i as int].rank());
                    } else {
                        assert(out@[a] == before[a] && out@[b] == before[b]);
                    }
                }
                assert forall|a: int, b: int|
                    0 <= a < out@.len() && i + 1 <= b < left@.len() implies (#[trigger] out@[a]).rank()
                    <= (#[trigger] left@[b]).rank() by {
                    if a == before.len() {
                        assert(left@[i as int].rank() <= left@[b].rank());
                    } else {
                        assert(out@[a] == before[a]);
                    }
                }
                assert forall|a: int, b: int|
                    0 <= a < out@.len() && j <= b < right@.len() implies (#[trigger] out@[a]).rank()
                    <= (#[trigger] right@[b]).rank() by {
                    if a == before.len() {
                        assert(right@[j as int].rank() <= right@[b].rank());
                    } else {
                        assert(out@[a] == before[a]);
                    }
                }
            }
            i += 1;
        } else {
            let key = right[j];
            out.push(key);
            proof {
                assert forall|k: K|
                    out@.contains(k) <==> left@.take(i as int).contains(k) || right@.take(
                        j + 1,
                    ).contains(k) by {
                    lemma_push_members(before, key, k);
                    lemma_prefix_members(right@, j as int, k);
                }
                assert forall|a: int, b: int| 0 <= a < b < out@.len() implies (#[trigger] out@[a]).rank()
                    <= (#[trigger] out@[b]).rank() by {
                    if b == before.len() {
                        assert(out@[a] == before[a]);
                        assert(before[a].rank() <= right@[j as int].rank());
                    } else {
                        assert(out@[a] == before[a] && out@[b] == before[b]);
                    }
                }
                assert forall|a: int, b: int|
                    0 <= a < out@.len() && i <= b < left@.len() implies (#[trigger] out@[a]).rank()
                    <= (#[trigger] left@[b]).rank() by {
                    if a == before.len() {
                        assert(left@[i as int].rank() <= left@[b].rank());
                    } else {
                        assert(out@[a] == before[a]);
                    }
                }
                assert forall|a: int, b: int|
                    0 <= a < out@.len() && j + 1 <= b < right@.len() implies (
                #[trigger] out@[a]).rank() <= (#[trigger] right@[b]).rank() by {
                    if a == before.len() {
                        assert(right@[j as int].rank() <= right@[b].rank());
                    } else {
                        assert(out@[a] == before[a]);
                    }
                }
            }
            j += 1;
        }
    }
    proof {
        assert(left@.take(left@.len() as int) =~= left@);
        assert(right@.take(right@.len() as int) =~= right@);
    }
    out
}

/// Sorts the keys at the positions `from` up to `to` of `items`.
fn sort_range<K: Key>(items: &Vec<K>, from: usize, to: usize) -> (out: Vec<K>)
    requires
        from <= to <= items@.len(),
    ensures
        non_descending(out@),
        out@.len() == to - from,
        forall|k: K| out@.contains(k) <==> items@.subrange(from as int, to as int).contains(k),
    decreases to - from,
{
    let ghost range = items@.subrange(from as int, to as int);
    if to - from == 0 {
        let out: Vec<K> = Vec::new();
        proof {
            assert forall|k: K| !range.contains(k) by {
                assert(range.len() == 0);
            }
        }
        out
    } else if to - from == 1 {
        let mut out: Vec<K> = Vec::new();
        out.push(items[from]);
        proof {
            assert(out@ =~= range);
        }
        out
    } else {
        let middle: usize = from + (to - from) / 2;
        let left = sort_range(items, from, middle);
        let right = sort_range(items, middle, to);
        let out = merge(&left, &right);
        proof {
            let low = items@.subrange(from as int, middle as int);
            let high = items@.subrange(middle as int, to as int);
            assert(range =~= low + high);
            assert forall|k: K| range.contains(k) <==> low.contains(k) || high.contains(k) by {
                if range.contains(k) {
                    let i = choose|i: int| 0 <= i < range.len() && range[i] == k;
                    if i < low.len() {
                        assert(low[i] == k);
                    } else {
                        assert(high[i - low.len()] == k);
                    }
                }
                if low.contains(k) {
                    let i = choose|i: int| 0 <= i < low.len() && low[i] == k;
                    assert(range[i] == k);
                }
                if high.contains(k) {
                    let i = choose|i: int| 0 <= i < high.len() && high[i] == k;
                    assert(range[i + low.len()] == k);
                }
            }
        }
        out
    }
}

/// Drops the repeats of a sorted vector.
fn dedup<K: Key>(sorted: &Vec<K>) -> (out: Vec<K>)
    requires
        non_descending(sorted@),
    ensures
        is_listing_of(out@, sorted@.to_set()),
{
    let mut out: Vec<K> = Vec::new();
    let mut i: usize = 0;
    proof {
        assert forall|k: K| !sorted@.take(0).contains(k) by {
            assert(sorted@.take(0).len() == 0);
        }
    }
    while i < sorted.len()
        invariant
            i <= sorted@.len(),
            non_descending(sorted@),
            forall|a: int, b: int|
                0 <= a < b < out@.len() ==> (#[trigger] out@[a]).rank() < (#[trigger] out@[b]).rank(),
            out@.len() <= i,
            out@.len() > 0 ==> i > 0 && out@[out@.len() - 1] == sorted@[i - 1],
            i > 0 ==> out@.len() > 0,
            forall|k: K| out@.contains(k) <==> sorted@.take(i as int).contains(k),
        decreases sorted@.len() - i,
    {
        let key = sorted[i];
        let ghost before = out@;
        let fresh = if out.len() == 0 {
            true
        } else {
            out[out.len() - 1].precedes(&key)
        };
        proof {
            if !fresh {
                assert(sorted@[i - 1].rank() <= sorted@[i as int].rank());
                K::lemma_rank_injective(out@[out@.len() - 1], key);
                assert(out@.contains(key));
            }
        }
        if fresh {
            out.push(key);
            proof {
                assert forall|a: int, b: int| 0 <= a < b < out@.len() implies (#[trigger] out@[a]).rank()
                    < (#[trigger] out@[b]).rank() by {
                    if b == before.len() {
                        assert(out@[a] == before[a]);
                        if a < before.len() - 1 {
                            assert(before[a].rank() < before[before.len() - 1].rank());
                        }
                        assert(before[before.len() - 1] == sorted@[i - 1]);
                    } else {
                        assert(out@[a] == before[a] && out@[b] == before[b]);
                    }
                }
            }
        }
        proof {
            assert forall|k: K| out@.contains(k) <==> sorted@.take(i + 1).contains(k) by {
                lemma_prefix_members(sorted@, i as int, k);
                if fresh {
                    lemma_push_members(before, key, k);
                }
            }
        }
        i += 1;
    }
    proof {
        assert(sorted@.take(sorted@.len() as int) =~= sorted@);
        assert forall|k: K|
            #![trigger out@.contains(k)]
            #![trigger sorted@.to_set().contains(k)]
            out@.contains(k) <==> sorted@.to_set().contains(k) by {}
    }
    out
}

/// The keys of `items`, each once, in ascending order.
pub fn sort_dedup<K: Key>(items: &Vec<K>) -> (out: Vec<K>)
    ensures
        is_listing_of(out@, items@.to_set()),
{
    let sorted = sort_range(items, 0, items.len());
    proof {
        assert(items@.subrange(0, items@.len() as int) =~= items@);
        assert(sorted@.to_set() =~= items@.to_set());
    }
    dedup(&sorted)
}

} // verus!
