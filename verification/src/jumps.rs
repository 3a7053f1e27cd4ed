use vstd::prelude::*;

verus! {

/// A branch whose target lies inside the function that holds it.
#[derive(Clone, Copy, PartialEq, Eq, Debug, Structural)]
pub struct InnerJump {
    /// The index that we are jumping from.
    pub source: usize,
    /// The index that we are jumping to.
    pub target: usize,
    /// The lane of the arrow: 0 is the rightmost one, lanes grow leftward in steps of 2.
    pub display_offset: usize,
}

/// Two closed intervals, each given by its end points in either order, share a point.
pub open spec fn ranges_overlap(a_start: int, a_end: int, b_start: int, b_end: int) -> bool {
    let a_low = if a_start <= a_end { a_start } else { a_end };
    let a_high = if a_start <= a_end { a_end } else { a_start };
    let b_low = if b_start <= b_end { b_start } else { b_end };
    let b_high = if b_start <= b_end { b_end } else { b_start };
    a_low <= b_high && b_low <= a_high
}

/// The arrows of `a` and `b` share a row.
pub open spec fn spans_overlap(a: InnerJump, b: InnerJump) -> bool {
    ranges_overlap(a.source as int, a.target as int, b.source as int, b.target as int)
}

/// `j` with its lane reset.
pub open spec fn unplaced_jump(j: InnerJump) -> InnerJump {
    InnerJump { source: j.source, target: j.target, display_offset: 0 }
}

/// `js` with every lane reset.
pub open spec fn unplaced(js: Seq<InnerJump>) -> Seq<InnerJump> {
    js.map_values(|j: InnerJump| unplaced_jump(j))
}

/// `j` put into the ordered sequence `s`, behind every jump whose source is not greater.
pub open spec fn insert_by_source(s: Seq<InnerJump>, j: InnerJump) -> Seq<InnerJump>
    decreases s.len(),
{
    if s.len() == 0 {
        seq![j]
    } else if s.last().source <= j.source {
        s.push(j)
    } else {
        insert_by_source(s.drop_last(), j).push(s.last())
    }
}

/// `s` ordered by source; jumps with the same source keep their order.
pub open spec fn sort_by_source(s: Seq<InnerJump>) -> Seq<InnerJump>
    decreases s.len(),
{
    if s.len() == 0 {
        s
    } else {
        insert_by_source(sort_by_source(s.drop_last()), s.last())
    }
}

/// `s` is in ascending order of source.
pub open spec fn ordered_by_source(s: Seq<InnerJump>) -> bool {
    forall|a: int, b: int| 0 <= a <= b < s.len() ==> s[a].source <= s[b].source
}

/// The lane in which jump `k` stands while jump `i` is being placed. Placement runs from the
/// last jump to the first: those behind `i` have their lane, the others still stand in lane 0.
pub open spec fn lane_seen(js: Seq<InnerJump>, i: int, k: int) -> int {
    if k > i {
        js[k].display_offset as int
    } else {
        0
    }
}

/// Jump `k` keeps jump `i` out of `lane`.
pub open spec fn lane_conflict(js: Seq<InnerJump>, i: int, k: int, lane: int) -> bool {
    &&& 0 <= k < js.len()
    &&& k != i
    &&& spans_overlap(js[i], js[k])
    &&& lane_seen(js, i, k) == lane
}

/// Some other jump keeps jump `i` out of `lane`.
pub open spec fn lane_taken(js: Seq<InnerJump>, i: int, lane: int) -> bool {
    exists|k: int| lane_conflict(js, i, k, lane)
}

/// `lane` is the first even lane that no other jump keeps jump `i` out of.
pub open spec fn is_lowest_free_lane(js: Seq<InnerJump>, i: int, lane: int) -> bool {
    &&& 0 <= lane
    &&& lane % 2 == 0
    &&& !lane_taken(js, i, lane)
    &&& forall|l: int| 0 <= l < lane && l % 2 == 0 ==> lane_taken(js, i, l)
}

/// Every jump of `js` stands in the lane that the placement gives it.
pub open spec fn lanes_assigned(js: Seq<InnerJump>) -> bool {
    forall|i: int| 0 <= i < js.len() ==> is_lowest_free_lane(js, i, #[trigger] js[i].display_offset as int)
}

/// `m` is the greatest lane in `js`, or 0 where `js` is empty.
pub open spec fn is_max_lane(js: Seq<InnerJump>, m: int) -> bool {
    &&& forall|k: int| 0 <= k < js.len() ==> #[trigger] js[k].display_offset <= m
    &&& (m == 0 || exists|k: int| 0 <= k < js.len() && #[trigger] js[k].display_offset == m)
}

/// Whether two closed intervals of rows, each given by its end points in either order, share a
/// row.
pub fn do_ranges_overlap(a_start: usize, a_end: usize, b_start: usize, b_end: usize) -> (r: bool)
    ensures
        r == ranges_overlap(a_start as int, a_end as int, b_start as int, b_end as int),
{
    let a_top = if a_start <= a_end { a_start } else { a_end };
    let b_bot = if b_start <= b_end { b_end } else { b_start };
    if a_top > b_bot {
        return false;
    }
    let a_bot = if a_start <= a_end { a_end } else { a_start };
    let b_top = if b_start <= b_end { b_start } else { b_end };
    if b_top > a_bot {
        return false;
    }
    true
}

/// Where `j` goes in an ordered sequence: behind the last jump whose source is not greater.
proof fn lemma_insert_position(s: Seq<InnerJump>, j: InnerJump, pos: int)
    requires
        0 <= pos <= s.len(),
        forall|k: int| pos <= k < s.len() ==> s[k].source > j.source,
        pos == 0 || s[pos - 1].source <= j.source,
    ensures
        insert_by_source(s, j) == s.insert(pos, j),
    decreases s.len(),
{
    if s.len() == 0 {
        assert(seq![j] =~= s.insert(pos, j));
    } else if s.last().source <= j.source {
        assert(pos == s.len());
        assert(s.push(j) =~= s.insert(pos, j));
    } else {
        assert(pos < s.len());
        lemma_insert_position(s.drop_last(), j, pos);
        assert(s.drop_last().insert(pos, j).push(s.last()) =~= s.insert(pos, j));
    }
}

proof fn lemma_insert_by_source_ordered(s: Seq<InnerJump>, j: InnerJump)
    requires
        ordered_by_source(s),
    ensures
        ordered_by_source(insert_by_source(s, j)),
        insert_by_source(s, j).len() == s.len() + 1,
        insert_by_source(s, j).to_multiset() == s.to_multiset().insert(j),
    decreases s.len(),
{
    broadcast use vstd::seq_lib::to_multiset_build;

    if s.len() == 0 {
        assert(seq![j] =~= s.push(j));
    } else if s.last().source <= j.source {
    } else {
        let front = s.drop_last();
        lemma_insert_by_source_ordered(front, j);
        let mid = insert_by_source(front, j);
        let out = mid.push(s.last());
        assert(s =~= front.push(s.last()));
        assert forall|a: int| 0 <= a < mid.len() implies #[trigger] mid[a].source <= s.last().source by {
            assert(mid.to_multiset().count(mid[a]) > 0) by {
                vstd::seq_lib::to_multiset_contains(mid, mid[a]);
                assert(mid.contains(mid[a]));
            }
            if mid[a] != j {
                assert(front.to_multiset().count(mid[a]) > 0);
                vstd::seq_lib::to_multiset_contains(front, mid[a]);
                let w = choose|w: int| 0 <= w < front.len() && front[w] == mid[a];
                assert(s[w].source <= s[s.len() - 1].source);
            }
        }
        assert(out.to_multiset() =~= s.to_multiset().insert(j));
    }
}

/// Ordering a sequence of jumps by source gives an ascending sequence with the same jumps.
pub proof fn lemma_sort_by_source(s: Seq<InnerJump>)
    ensures
        ordered_by_source(sort_by_source(s)),
        sort_by_source(s).len() == s.len(),
        sort_by_source(s).to_multiset() == s.to_multiset(),
    decreases s.len(),
{
    broadcast use vstd::seq_lib::to_multiset_build;

    if s.len() > 0 {
        lemma_sort_by_source(s.drop_last());
        lemma_insert_by_source_ordered(sort_by_source(s.drop_last()), s.last());
        assert(s =~= s.drop_last().push(s.last()));
    }
}

/// Whether a lane is taken for jump `i` depends on the rows of the jumps and on the lanes of
/// those behind `i` alone.
proof fn lemma_lane_taken_stable(a: Seq<InnerJump>, b: Seq<InnerJump>, i: int, lane: int)
    requires
        a.len() == b.len(),
        0 <= i < a.len(),
        forall|k: int| 0 <= k < a.len() ==> unplaced_jump(#[trigger] a[k]) == unplaced_jump(b[k]),
        forall|k: int|
            i < k < a.len() ==> (#[trigger] a[k]).display_offset == b[k].display_offset,
    ensures
        lane_taken(a, i, lane) == lane_taken(b, i, lane),
{
    assert(unplaced_jump(a[i]) == unplaced_jump(b[i]));
    if lane_taken(a, i, lane) {
        let k = choose|k: int| lane_conflict(a, i, k, lane);
        assert(unplaced_jump(a[k]) == unplaced_jump(b[k]));
        assert(lane_conflict(b, i, k, lane));
    }
    if lane_taken(b, i, lane) {
        let k = choose|k: int| lane_conflict(b, i, k, lane);
        assert(unplaced_jump(a[k]) == unplaced_jump(b[k]));
        assert(lane_conflict(a, i, k, lane));
    }
}

/// Ordering jumps that are not placed gives jumps that are not placed.
proof fn lemma_sort_keeps_unplaced(s: Seq<InnerJump>)
    ensures
        unplaced(sort_by_source(unplaced(s))) == sort_by_source(unplaced(s)),
{
    let u = unplaced(s);
    let out = sort_by_source(u);
    lemma_sort_by_source(u);
    assert forall|i: int| 0 <= i < out.len() implies unplaced_jump(#[trigger] out[i]) == out[i] by {
        vstd::seq_lib::to_multiset_contains(out, out[i]);
        assert(out.contains(out[i]));
        vstd::seq_lib::to_multiset_contains(u, out[i]);
        let w = choose|w: int| 0 <= w < u.len() && u[w] == out[i];
        assert(u[w] == unplaced_jump(s[w]));
    }
    assert(unplaced(out) =~= out);
}

/// Two jumps whose arrows share a row stand in lanes that are at least 2 apart.
pub proof fn lemma_overlapping_jumps_lanes_apart(js: Seq<InnerJump>, a: int, b: int)
    requires
        lanes_assigned(js),
        0 <= a < js.len(),
        0 <= b < js.len(),
        a != b,
        spans_overlap(js[a], js[b]),
    ensures
        js[a].display_offset + 2 <= js[b].display_offset || js[b].display_offset + 2
            <= js[a].display_offset,
{
    let la = js[a].display_offset as int;
    let lb = js[b].display_offset as int;
    assert(is_lowest_free_lane(js, a, la));
    assert(is_lowest_free_lane(js, b, lb));
    if a < b {
        if la == lb {
            assert(lane_conflict(js, a, b, la));
        }
    } else {
        if la == lb {
            assert(lane_conflict(js, b, a, lb));
        }
    }
}

/// The inner jumps of one function, with the width that their arrows need.
pub struct InnerJumpTable {
    jumps: Vec<InnerJump>,
    max_display_offset: usize,
}

impl View for InnerJumpTable {
    type V = Seq<InnerJump>;

    closed spec fn view(&self) -> Seq<InnerJump> {
        self.jumps@
    }
}

/// A copy of `jumps` in ascending order of source, every lane reset.
fn sorted_by_source(jumps: &Vec<InnerJump>) -> (out: Vec<InnerJump>)
    ensures
        out@ == sort_by_source(unplaced(jumps@)),
{
    let mut out: Vec<InnerJump> = Vec::new();
    let mut i: usize = 0;
    while i < jumps.len()
        invariant
            i <= jumps.len(),
            out@ == sort_by_source(unplaced(jumps@).take(i as int)),
        decreases jumps.len() - i,
    {
        let j = InnerJump { source: jumps[i].source, target: jumps[i].target, display_offset: 0 };
        let mut pos: usize = out.len();
        while pos > 0 && out[pos - 1].source > j.source
            invariant
                pos <= out.len(),
                forall|k: int| pos <= k < out.len() ==> out[k].source > j.source,
            decreases pos,
        {
            pos -= 1;
        }
        proof {
            lemma_insert_position(out@, j, pos as int);
            let next = unplaced(jumps@).take(i + 1);
            assert(next.drop_last() =~= unplaced(jumps@).take(i as int));
            assert(next.last() == j);
        }
        out.insert(pos, j);
        i += 1;
    }
    proof {
        assert(unplaced(jumps@).take(jumps.len() as int) =~= unplaced(jumps@));
    }
    out
}

/// Whether some other jump keeps jump `idx` out of `lane`.
fn lane_is_taken(jumps: &Vec<InnerJump>, idx: usize, lane: usize) -> (r: bool)
    requires
        idx < jumps.len(),
    ensures
        r == lane_taken(jumps@, idx as int, lane as int),
{
    let mut k: usize = 0;
    while k < jumps.len()
        invariant
            k <= jumps.len(),
            idx < jumps.len(),
            forall|m: int| 0 <= m < k ==> !lane_conflict(jumps@, idx as int, m, lane as int),
        decreases jumps.len() - k,
    {
        if k != idx && do_ranges_overlap(
            jumps[idx].source,
            jumps[idx].target,
            jumps[k].source,
            jumps[k].target,
        ) {
            let seen: usize = if k > idx {
                jumps[k].display_offset
            } else {
                0
            };
            if seen == lane {
                assert(lane_conflict(jumps@, idx as int, k as int, lane as int));
                return true;
            }
        }
        k += 1;
    }
    false
}

impl InnerJumpTable {
    /// The width that was found when the lanes were last assigned.
    pub closed spec fn spec_max_display_offset(&self) -> usize {
        self.max_display_offset
    }

    pub fn new() -> (r: InnerJumpTable)
        ensures
            r@ == Seq::<InnerJump>::empty(),
            r.spec_max_display_offset() == 0,
    {
        InnerJumpTable { jumps: Vec::new(), max_display_offset: 0 }
    }

    pub fn clear(&mut self)
        ensures
            final(self)@ == Seq::<InnerJump>::empty(),
            final(self).spec_max_display_offset() == 0,
    {
        self.jumps.clear();
        self.max_display_offset = 0;
    }

    /// Records a jump from instruction `source` to instruction `target`, not placed yet.
    pub fn insert(&mut self, source: usize, target: usize)
        ensures
            final(self)@ == old(self)@.push(InnerJump { source, target, display_offset: 0 }),
            final(self).spec_max_display_offset() == old(self).spec_max_display_offset(),
    {
        self.jumps.push(InnerJump { source, target, display_offset: 0 })
    }

    #[verifier::when_used_as_spec(spec_max_display_offset)]
    pub fn max_display_offset(&self) -> (r: usize)
        ensures
            r == self.spec_max_display_offset(),
    {
        self.max_display_offset
    }

    /// The number of jumps.
    pub fn len(&self) -> (r: usize)
        ensures
            r == self@.len(),
    {
        self.jumps.len()
    }

    /// The jumps, in the order in which they are held.
    pub fn iter(&self) -> (r: &[InnerJump])
        ensures
            r@ == self@,
    {
        self.jumps.as_slice()
    }

    /// Orders the jumps by source and gives each of them the first even lane that no jump with
    /// a common row holds: those behind it in the order with the lane they were given, those
    /// before it with lane 0.
    pub fn sort_and_calc_overlaps(&mut self)
        requires
            2 * old(self)@.len() <= usize::MAX,
        ensures
            unplaced(final(self)@) == sort_by_source(unplaced(old(self)@)),
            final(self)@.len() == old(self)@.len(),
            ordered_by_source(final(self)@),
            lanes_assigned(final(self)@),
            is_max_lane(final(self)@, final(self).spec_max_display_offset() as int),
            final(self).spec_max_display_offset() <= 2 * final(self)@.len(),
            forall|a: int, b: int|
                0 <= a < final(self)@.len() && 0 <= b < final(self)@.len() && a != b
                    && spans_overlap(final(self)@[a], final(self)@[b]) ==> final(self)@[a].display_offset
                    + 2 <= final(self)@[b].display_offset || final(self)@[b].display_offset + 2
                    <= final(self)@[a].display_offset,
    {
        let ghost before = self.jumps@;
        let sorted = sorted_by_source(&self.jumps);
        self.jumps = sorted;
        self.max_display_offset = 0;
        let ghost start = self.jumps@;
        proof {
            lemma_sort_by_source(unplaced(before));
            lemma_sort_keeps_unplaced(before);
        }
        let n = self.jumps.len();
        let mut idx: usize = n;
        while idx > 0
            invariant
                idx <= n,
                2 * n <= usize::MAX,
                self.jumps@.len() == n,
                unplaced(self.jumps@) == start,
                forall|k: int| 0 <= k < idx ==> (#[trigger] self.jumps@[k]).display_offset == 0,
                forall|k: int|
                    idx <= k < n ==> (#[trigger] self.jumps@[k]).display_offset <= 2 * (n - k),
                forall|k: int|
                    idx <= k < n ==> is_lowest_free_lane(
                        self.jumps@,
                        k,
                        (#[trigger] self.jumps@[k]).display_offset as int,
                    ),
                is_max_lane(self.jumps@, self.max_display_offset as int),
                self.max_display_offset <= 2 * n,
            decreases idx,
        {
            idx -= 1;
            let mut lane: usize = 0;
            while lane_is_taken(&self.jumps, idx, lane)
                invariant
                    idx < n,
                    2 * n <= usize::MAX,
                    self.jumps@.len() == n,
                    lane % 2 == 0,
                    lane <= 2 * (n - idx),
                    forall|k: int|
                        idx < k < n ==> (#[trigger] self.jumps@[k]).display_offset <= 2 * (n - k),
                    forall|l: int|
                        0 <= l < lane && l % 2 == 0 ==> lane_taken(self.jumps@, idx as int, l),
                decreases 2 * (n - idx) - lane,
            {
                proof {
                    let k = choose|k: int| lane_conflict(self.jumps@, idx as int, k, lane as int);
                    assert(lane_conflict(self.jumps@, idx as int, k, lane as int));
                    if k > idx {
                        assert(self.jumps@[k].display_offset <= 2 * (n - k));
                    }
                }
                lane += 2;
            }
            let ghost prev = self.jumps@;
            let ghost max_before = self.max_display_offset;
            let placed = InnerJump {
                source: self.jumps[idx].source,
                target: self.jumps[idx].target,
                display_offset: lane,
            };
            self.jumps.set(idx, placed);
            if lane > self.max_display_offset {
                self.max_display_offset = lane;
            }
            proof {
                let cur = self.jumps@;
                assert(unplaced(cur) =~= unplaced(prev));
                assert forall|k: int| idx <= k < n implies is_lowest_free_lane(
                    cur,
                    k,
                    (#[trigger] cur[k]).display_offset as int,
                ) by {
                    let off = cur[k].display_offset as int;
                    assert forall|l: int| lane_taken(cur, k, l) == lane_taken(prev, k, l) by {
                        assert forall|m: int| 0 <= m < cur.len() implies unplaced_jump(
                            #[trigger] cur[m],
                        ) == unplaced_jump(prev[m]) by {
                            assert(unplaced(cur)[m] == unplaced(prev)[m]);
                        }
                        lemma_lane_taken_stable(cur, prev, k, l);
                    }
                    if k > idx {
                        assert(is_lowest_free_lane(prev, k, prev[k].display_offset as int));
                    }
                }
                assert(is_max_lane(cur, self.max_display_offset as int)) by {
                    assert forall|k: int| 0 <= k < cur.len() implies (#[trigger] cur[k]).display_offset
                        <= self.max_display_offset by {
                        if k != idx {
                            assert(cur[k] == prev[k]);
                        }
                    }
                    if self.max_display_offset != 0 {
                        if lane > max_before {
                            assert(cur[idx as int].display_offset == self.max_display_offset);
                        } else {
                            let w = choose|w: int|
                                0 <= w < prev.len() && (#[trigger] prev[w]).display_offset
                                    == max_before;
                            assert(prev[idx as int].display_offset == 0);
                            assert(cur[w] == prev[w]);
                            assert(cur[w].display_offset == self.max_display_offset);
                        }
                    }
                }
            }
        }
        proof {
            let done = self.jumps@;
            assert(lanes_assigned(done));
            assert forall|a: int, b: int|
                0 <= a < done.len() && 0 <= b < done.len() && a != b && spans_overlap(
                    done[a],
                    done[b],
                ) implies done[a].display_offset + 2 <= done[b].display_offset
                || done[b].display_offset + 2 <= done[a].display_offset by {
                lemma_overlapping_jumps_lanes_apart(done, a, b);
            }
            assert forall|a: int, b: int| 0 <= a <= b < done.len() implies done[a].source
                <= done[b].source by {
                assert(unplaced(done)[a].source == done[a].source);
                assert(unplaced(done)[b].source == done[b].source);
            }
        }
    }
}

} // verus!
