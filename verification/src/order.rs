use vstd::prelude::*;

verus! {

/// The index `i` put into `order`, behind every index whose key is not greater.
pub open spec fn insert_index(keys: Seq<u64>, order: Seq<int>, i: int) -> Seq<int>
    decreases order.len(),
{
    if order.len() == 0 {
        seq![i]
    } else if keys[order.last()] <= keys[i] {
        order.push(i)
    } else {
        insert_index(keys, order.drop_last(), i).push(order.last())
    }
}

/// The first `n` indices of `keys` in ascending order of key; indices with the same key keep
/// their order.
pub open spec fn sort_indices(keys: Seq<u64>, n: int) -> Seq<int>
    decreases n,
{
    if n <= 0 {
        Seq::empty()
    } else {
        insert_index(keys, sort_indices(keys, n - 1), n - 1)
    }
}

/// The indices of `keys` in ascending order of key; indices with the same key keep their
/// order.
pub open spec fn key_order(keys: Seq<u64>) -> Seq<int> {
    sort_indices(keys, keys.len() as int)
}

/// `order` holds each of the indices below `n` once, in ascending order of key, and indices
/// with the same key in ascending order.
pub open spec fn is_stable_order(keys: Seq<u64>, order: Seq<int>, n: int) -> bool {
    &&& order.len() == n
    &&& forall|a: int| 0 <= a < n ==> 0 <= #[trigger] order[a] < n
    &&& forall|a: int, b: int| 0 <= a < b < n ==> order[a] != order[b]
    &&& forall|k: int| 0 <= k < n ==> order.contains(k)
    &&& forall|a: int, b: int| 0 <= a < b < n ==> keys[order[a]] <= keys[order[b]]
    &&& forall|a: int, b: int|
        0 <= a < b < n && keys[order[a]] == keys[order[b]] ==> order[a] < order[b]
}

/// Where an index goes in an order: behind the last index whose key is not greater.
proof fn lemma_insert_index_at(keys: Seq<u64>, order: Seq<int>, i: int, pos: int)
    requires
        0 <= pos <= order.len(),
        forall|k: int| pos <= k < order.len() ==> keys[order[k]] > keys[i],
        pos == 0 || keys[order[pos - 1]] <= keys[i],
    ensures
        insert_index(keys, order, i) == order.insert(pos, i),
    decreases order.len(),
{
    if order.len() == 0 {
        assert(seq![i] =~= order.insert(pos, i));
    } else if keys[order.last()] <= keys[i] {
        assert(pos == order.len());
        assert(order.push(i) =~= order.insert(pos, i));
    } else {
        assert(pos < order.len());
        lemma_insert_index_at(keys, order.drop_last(), i, pos);
        assert(order.drop_last().insert(pos, i).push(order.last()) =~= order.insert(pos, i));
    }
}

/// The place at which an index goes into an order.
proof fn lemma_insert_place(keys: Seq<u64>, order: Seq<int>, i: int) -> (pos: int)
    ensures
        0 <= pos <= order.len(),
        forall|k: int| pos <= k < order.len() ==> keys[order[k]] > keys[i],
        pos == 0 || keys[order[pos - 1]] <= keys[i],
        insert_index(keys, order, i) == order.insert(pos, i),
    decreases order.len(),
{
    if order.len() == 0 {
        lemma_insert_index_at(keys, order, i, 0);
        0
    } else if keys[order.last()] <= keys[i] {
        lemma_insert_index_at(keys, order, i, order.len() as int);
        order.len() as int
    } else {
        let front = order.drop_last();
        let pos = lemma_insert_place(keys, front, i);
        assert forall|k: int| pos <= k < order.len() implies keys[order[k]] > keys[i] by {
            if k < front.len() {
                assert(front[k] == order[k]);
            }
        }
        if pos > 0 {
            assert(front[pos - 1] == order[pos - 1]);
        }
        lemma_insert_index_at(keys, order, i, pos);
        pos
    }
}

/// The order of the indices by key holds each index once, in ascending order of key, and
/// keeps the order of indices with the same key.
pub proof fn lemma_sort_indices(keys: Seq<u64>, n: int)
    requires
        0 <= n <= keys.len(),
    ensures
        is_stable_order(keys, sort_indices(keys, n), n),
    decreases n,
{
    if n > 0 {
        lemma_sort_indices(keys, n - 1);
        let prev = sort_indices(keys, n - 1);
        let pos = lemma_insert_place(keys, prev, n - 1);
        let out = prev.insert(pos, n - 1);
        assert forall|a: int| 0 <= a < n implies 0 <= #[trigger] out[a] < n by {
            if a < pos {
                assert(out[a] == prev[a]);
            } else if a > pos {
                assert(out[a] == prev[a - 1]);
            }
        }
        assert forall|a: int, b: int| 0 <= a < b < n implies out[a] != out[b] by {
            let pa = if a < pos {
                a
            } else {
                a - 1
            };
            let pb = if b < pos {
                b
            } else {
                b - 1
            };
            if a != pos && b != pos {
                assert(out[a] == prev[pa] && out[b] == prev[pb]);
            } else if a == pos {
                assert(out[b] == prev[pb]);
            } else {
                assert(out[a] == prev[pa]);
            }
        }
        assert forall|k: int| 0 <= k < n implies out.contains(k) by {
            if k == n - 1 {
                assert(out[pos] == k);
            } else {
                assert(prev.contains(k));
                let w = choose|w: int| 0 <= w < prev.len() && prev[w] == k;
                if w < pos {
                    assert(out[w] == k);
                } else {
                    assert(out[w + 1] == k);
                }
            }
        }
        assert forall|a: int, b: int| 0 <= a < b < n implies keys[out[a]] <= keys[out[b]] && (
        keys[out[a]] == keys[out[b]] ==> out[a] < out[b]) by {
            let pa = if a < pos {
                a
            } else {
                a - 1
            };
            let pb = if b < pos {
                b
            } else {
                b - 1
            };
            if a != pos && b != pos {
                assert(out[a] == prev[pa] && out[b] == prev[pb]);
            } else if a == pos {
                assert(out[b] == prev[pb]);
                assert(keys[prev[pb]] > keys[n - 1]);
            } else {
                assert(out[a] == prev[pa]);
                assert(keys[prev[pos - 1]] <= keys[n - 1]);
                if pa < pos - 1 {
                    assert(keys[prev[pa]] <= keys[prev[pos - 1]]);
                }
                assert(prev[pa] < n - 1);
            }
        }
    }
}

/// The indices of `keys` in ascending order of key; indices with the same key keep their
/// order.
pub fn stable_order(keys: &Vec<u64>) -> (order: Vec<usize>)
    ensures
        order@.len() == keys@.len(),
        forall|a: int| 0 <= a < order@.len() ==> #[trigger] order@[a] == key_order(keys@)[a],
        forall|a: int| 0 <= a < order@.len() ==> #[trigger] order@[a] < keys@.len(),
        is_stable_order(keys@, key_order(keys@), keys@.len() as int),
{
    let n = keys.len();
    let mut order: Vec<usize> = Vec::new();
    let mut i: usize = 0;
    while i < n
        invariant
            i <= n,
            n == keys@.len(),
            order@.len() == i,
            forall|a: int| 0 <= a < i ==> #[trigger] order@[a] == sort_indices(keys@, i as int)[a],
            forall|a: int| 0 <= a < i ==> #[trigger] order@[a] < i,
        decreases n - i,
    {
        let ghost prev = sort_indices(keys@, i as int);
        proof {
            lemma_sort_indices(keys@, i as int);
        }
        let key = keys[i];
        let mut pos: usize = order.len();
        while pos > 0 && keys[order[pos - 1]] > key
            invariant
                pos <= order@.len(),
                order@.len() == i,
                i < n,
                n == keys@.len(),
                key == keys@[i as int],
                forall|a: int| 0 <= a < i ==> #[trigger] order@[a] < i,
                forall|a: int| 0 <= a < i ==> #[trigger] order@[a] == prev[a],
                forall|k: int| pos <= k < order@.len() ==> keys@[prev[k]] > key,
            decreases pos,
        {
            pos -= 1;
            proof {
                assert(order@[pos as int] == prev[pos as int]);
            }
        }
        proof {
            if pos > 0 {
                assert(order@[pos - 1] == prev[pos - 1]);
            }
            lemma_insert_index_at(keys@, prev, i as int, pos as int);
        }
        order.insert(pos, i);
        proof {
            let next = sort_indices(keys@, i + 1);
            assert(next == prev.insert(pos as int, i as int));
            assert forall|a: int| 0 <= a < i + 1 implies #[trigger] order@[a] == next[a] && order@[a]
                < i + 1 by {
                if a < pos {
                    assert(next[a] == prev[a]);
                } else if a > pos {
                    assert(next[a] == prev[a - 1]);
                }
            }
        }
        i += 1;
    }
    proof {
        lemma_sort_indices(keys@, n as int);
    }
    order
}

/// `s` ascends strictly.
pub open spec fn strictly_ascending(s: Seq<u64>) -> bool {
    forall|a: int, b: int| 0 <= a < b < s.len() ==> s[a] < s[b]
}

/// `out` holds the values of `input`, each once, in ascending order.
pub open spec fn is_sorted_set_of(out: Seq<u64>, input: Seq<u64>) -> bool {
    &&& strictly_ascending(out)
    &&& forall|x: u64| out.contains(x) <==> input.contains(x)
}

/// The values of `input`, each once, in ascending order.
pub fn sorted_distinct(input: &Vec<u64>) -> (out: Vec<u64>)
    ensures
        is_sorted_set_of(out@, input@),
{
    let mut out: Vec<u64> = Vec::new();
    let mut i: usize = 0;
    while i < input.len()
        invariant
            i <= input@.len(),
            strictly_ascending(out@),
            forall|x: u64| out@.contains(x) <==> input@.take(i as int).contains(x),
        decreases input@.len() - i,
    {
        let value = input[i];
        let ghost before = out@;
        let ghost seen = input@.take(i as int);
        let mut pos: usize = out.len();
        while pos > 0 && out[pos - 1] >= value
            invariant
                pos <= out@.len(),
                forall|k: int| pos <= k < out@.len() ==> out@[k] >= value,
            decreases pos,
        {
            pos -= 1;
        }
        let present = pos < out.len() && out[pos] == value;
        if !present {
            out.insert(pos, value);
        }
        proof {
            let next = input@.take(i + 1);
            assert(next =~= seen.push(value));
            assert forall|x: u64| out@.contains(x) <==> next.contains(x) by {
                if present {
                    assert(before[pos as int] == value);
                    if next.contains(x) {
                        let w = choose|w: int| 0 <= w < next.len() && next[w] == x;
                        if w < i {
                            assert(seen[w] == x);
                            assert(seen.contains(x));
                        } else {
                            assert(before.contains(value));
                        }
                    }
                    if out@.contains(x) {
                        assert(seen.contains(x));
                        let w = choose|w: int| 0 <= w < seen.len() && seen[w] == x;
                        assert(next[w] == x);
                    }
                } else {
                    if out@.contains(x) {
                        let w = choose|w: int| 0 <= w < out@.len() && out@[w] == x;
                        if w == pos {
                            assert(next[i as int] == x);
                        } else {
                            let pw = if w < pos {
                                w
                            } else {
                                w - 1
                            };
                            assert(before[pw] == x);
                            assert(before.contains(x));
                            assert(seen.contains(x));
                            let v = choose|v: int| 0 <= v < seen.len() && seen[v] == x;
                            assert(next[v] == x);
                        }
                    }
                    if next.contains(x) {
                        let w = choose|w: int| 0 <= w < next.len() && next[w] == x;
                        if w < i {
                            assert(seen[w] == x);
                            assert(seen.contains(x));
                            assert(before.contains(x));
                            let v = choose|v: int| 0 <= v < before.len() && before[v] == x;
                            if v < pos {
                                assert(out@[v] == x);
                            } else {
                                assert(out@[v + 1] == x);
                            }
                        } else {
                            assert(out@[pos as int] == x);
                        }
                    }
                }
            }
            if !present {
                assert forall|a: int, b: int| 0 <= a < b < out@.len() implies out@[a] < out@[b] by {
                    let pa = if a < pos {
                        a
                    } else {
                        a - 1
                    };
                    let pb = if b < pos {
                        b
                    } else {
                        b - 1
                    };
                    if a != pos && b != pos {
                        assert(out@[a] == before[pa] && out@[b] == before[pb]);
                    } else if a == pos {
                        assert(out@[b] == before[pb]);
                        assert(before[pb] >= value);
                        if pb == pos {
                            assert(before[pos as int] != value);
                        } else {
                            assert(before[pos as int] < before[pb]);
                        }
                    } else {
                        assert(out@[a] == before[pa]);
                        if pa < pos - 1 {
                            assert(before[pa] < before[pos - 1]);
                        }
                    }
                }
            }
        }
        i += 1;
    }
    proof {
        assert(input@.take(input@.len() as int) =~= input@);
    }
    out
}

/// The place of `value` in a sequence that ascends strictly.
pub fn find_value(sorted: &Vec<u64>, value: u64) -> (r: Option<usize>)
    requires
        strictly_ascending(sorted@),
    ensures
        match r {
            Some(i) => i < sorted@.len() && sorted@[i as int] == value,
            None => !sorted@.contains(value),
        },
{
    let len = sorted.len();
    let mut low: usize = 0;
    let mut high: usize = len;
    while low < high
        invariant
            low <= high <= len,
            len == sorted@.len(),
            strictly_ascending(sorted@),
            forall|k: int| 0 <= k < low ==> sorted@[k] < value,
            forall|k: int| high <= k < len ==> sorted@[k] > value,
        decreases high - low,
    {
        let mid = low + (high - low) / 2;
        let here = sorted[mid];
        if here == value {
            return Some(mid);
        } else if here < value {
            proof {
                assert forall|k: int| 0 <= k < mid + 1 implies sorted@[k] < value by {
                    if k < mid {
                        assert(sorted@[k] < sorted@[mid as int]);
                    }
                }
            }
            low = mid + 1;
        } else {
            proof {
                assert forall|k: int| mid <= k < len implies sorted@[k] > value by {
                    if k > mid {
                        assert(sorted@[mid as int] < sorted@[k]);
                    }
                }
            }
            high = mid;
        }
    }
    None
}

} // verus!
