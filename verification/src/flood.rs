//! Breadth-first traversal of one connected component of a mask.

use vstd::prelude::*;
use vstd::set_lib::{lemma_int_range, lemma_len_subset, set_int_range};
use crate::connectivity::{
    connected, discoverer, discovery_key, is_discoverer, is_traversal,
    lemma_closed_holds_connected, lemma_connected_reflexive, lemma_connected_step,
    lemma_discoverer_unique,
};
use crate::geometry::{adjacent, direction, Point};
use crate::grid::{cell_index, lemma_index_in_range, lemma_index_injective, Grid, Mask};

verus! {

/// `seen` has a flag for each cell, and a set pixel that is flagged has all
/// its set neighbours flagged: the flags mark whole components.
pub open spec fn marks_components(g: Grid, seen: Seq<bool>) -> bool {
    &&& seen.len() == g.cells.len()
    &&& forall|p: Point, q: Point|
        g.lit(p) && g.lit(q) && #[trigger] adjacent(p, q) && seen[g.index_of(p)]
            ==> seen[g.index_of(q)]
}

/// A list of `n` flags, none of them set.
pub fn unmarked(n: usize) -> (v: Vec<bool>)
    ensures
        v@.len() == n,
        forall|i: int| 0 <= i < n ==> !v@[i],
{
    let mut v: Vec<bool> = Vec::new();
    let mut i: usize = 0;
    while i < n
        invariant
            i <= n,
            v@.len() == i,
            forall|k: int| 0 <= k < i ==> !v@[k],
        decreases n - i,
    {
        v.push(false);
        i += 1;
    }
    v
}

/// Distinct positions inside a grid are no more than its cells.
pub proof fn lemma_distinct_points_bounded(g: Grid, s: Seq<Point>)
    requires
        g.wf(),
        s.no_duplicates(),
        forall|k: int| 0 <= k < s.len() ==> g.contains(#[trigger] s[k]),
    ensures
        s.len() <= g.cells.len(),
{
    let places = Seq::new(s.len(), |k: int| g.index_of(s[k]));
    assert forall|i: int, j: int| 0 <= i < places.len() && 0 <= j < places.len() && i != j implies places[i]
        != places[j] by {
        if places[i] == places[j] {
            lemma_index_injective(g, s[i], s[j]);
        }
    }
    places.unique_seq_to_set();
    let n = g.cells.len() as int;
    lemma_int_range(0, n);
    assert forall|v: int| places.to_set().contains(v) implies set_int_range(0, n).contains(v) by {
        let k = choose|k: int| 0 <= k < places.len() && places[k] == v;
        lemma_index_in_range(g, s[k]);
    }
    lemma_len_subset(places.to_set(), set_int_range(0, n));
}

/// The state of a traversal from `seed` that has looked at all neighbours of
/// the first `head` pixels of `queue`, and at those of `queue[head]` in the
/// directions below `d`.
spec fn flood_state(
    g: Grid,
    before: Seq<bool>,
    seed: Point,
    queue: Seq<Point>,
    seen: Seq<bool>,
    parents: Seq<int>,
    head: int,
    d: int,
) -> bool {
    &&& g.wf()
    &&& marks_components(g, before)
    &&& seen.len() == g.cells.len()
    &&& queue.len() >= 1
    &&& queue[0] == seed
    &&& 0 <= head <= queue.len()
    &&& 0 <= d <= 9
    &&& queue.no_duplicates()
    &&& forall|k: int| 0 <= k < queue.len() ==> g.lit(#[trigger] queue[k])
    &&& forall|k: int| 0 <= k < queue.len() ==> !before[g.index_of(#[trigger] queue[k])]
    &&& forall|k: int| 0 <= k < queue.len() ==> connected(g, seed, #[trigger] queue[k])
    &&& forall|p: Point|
        g.contains(p) ==> (seen[#[trigger] g.index_of(p)] <==> before[g.index_of(p)]
            || queue.contains(p))
    &&& forall|k: int, q: Point|
        0 <= k < head && g.lit(q) && #[trigger] adjacent(queue[k], q) ==> seen[g.index_of(q)]
    &&& head < queue.len() ==> forall|q: Point|
        g.lit(q) && #[trigger] adjacent(queue[head], q) && direction(queue[head], q) < d
            ==> seen[g.index_of(q)]
    &&& parents.len() == queue.len()
    &&& forall|i: int| 1 <= i < queue.len() ==> is_discoverer(queue, i, #[trigger] parents[i])
    &&& forall|i: int|
        1 <= i < queue.len() ==> #[trigger] parents[i] * 9 + direction(
            queue[parents[i]],
            queue[i],
        ) < head * 9 + d
    &&& forall|i: int, k: int|
        1 <= i < k < queue.len() ==> #[trigger] parents[i] * 9 + direction(
            queue[parents[i]],
            queue[i],
        ) < #[trigger] parents[k] * 9 + direction(queue[parents[k]], queue[k])
}

/// A finished traversal lists the component of its seed.
proof fn lemma_flood_done(
    g: Grid,
    before: Seq<bool>,
    seed: Point,
    queue: Seq<Point>,
    seen: Seq<bool>,
    parents: Seq<int>,
)
    requires
        flood_state(g, before, seed, queue, seen, parents, queue.len() as int, 0),
    ensures
        is_traversal(g, queue),
        marks_components(g, seen),
{
    let s = queue.to_set();
    assert forall|p: Point, q: Point|
        s.contains(p) && g.lit(q) && #[trigger] adjacent(p, q) implies s.contains(q) by {
        let k = choose|k: int| 0 <= k < queue.len() && queue[k] == p;
        assert(adjacent(queue[k], q));
        assert(seen[g.index_of(q)]);
        if before[g.index_of(q)] {
            assert(adjacent(q, p));
            assert(g.lit(queue[k]));
        }
    }
    assert forall|q: Point| queue.contains(q) <==> connected(g, queue[0], q) by {
        if queue.contains(q) {
            let k = choose|k: int| 0 <= k < queue.len() && queue[k] == q;
            assert(connected(g, seed, queue[k]));
        }
        if connected(g, queue[0], q) {
            assert(s.contains(seed));
            lemma_closed_holds_connected(g, s, seed, q);
        }
    }
    assert forall|i: int| 1 <= i < queue.len() implies is_discoverer(
        queue,
        i,
        #[trigger] discoverer(queue, i),
    ) by {
        lemma_discoverer_unique(queue, i, parents[i]);
    }
    assert forall|i: int, k: int| 1 <= i < k < queue.len() implies #[trigger] discovery_key(
        queue,
        i,
    ) < #[trigger] discovery_key(queue, k) by {
        lemma_discoverer_unique(queue, i, parents[i]);
        lemma_discoverer_unique(queue, k, parents[k]);
    }
    assert forall|p: Point, q: Point|
        g.lit(p) && g.lit(q) && #[trigger] adjacent(p, q) && seen[g.index_of(p)] implies seen[g.index_of(
        q,
    )] by {
        if !before[g.index_of(p)] {
            let k = choose|k: int| 0 <= k < queue.len() && queue[k] == p;
            assert(adjacent(queue[k], q));
        }
    }
}

/// The state after the seed was flagged and queued.
proof fn lemma_flood_start(g: Grid, before: Seq<bool>, seed: Point)
    requires
        g.wf(),
        marks_components(g, before),
        g.lit(seed),
        !before[g.index_of(seed)],
    ensures
        flood_state(
            g,
            before,
            seed,
            seq![seed],
            before.update(g.index_of(seed), true),
            seq![0int],
            0,
            0,
        ),
{
    let queue = seq![seed];
    let seen = before.update(g.index_of(seed), true);
    lemma_connected_reflexive(g, seed);
    lemma_index_in_range(g, seed);
    assert forall|p: Point| g.contains(p) implies (seen[#[trigger] g.index_of(p)] <==> before[g.index_of(
        p,
    )] || queue.contains(p)) by {
        lemma_index_in_range(g, p);
        if g.index_of(p) == g.index_of(seed) {
            lemma_index_injective(g, p, seed);
            assert(queue[0] == p);
        }
    }
}

/// The state after an unseen set neighbour in direction `d` was flagged and
/// queued.
proof fn lemma_flood_push(
    g: Grid,
    before: Seq<bool>,
    seed: Point,
    queue: Seq<Point>,
    seen: Seq<bool>,
    parents: Seq<int>,
    head: int,
    d: int,
    q: Point,
)
    requires
        flood_state(g, before, seed, queue, seen, parents, head, d),
        head < queue.len(),
        d < 9,
        g.lit(q),
        adjacent(queue[head], q),
        direction(queue[head], q) == d,
        !seen[g.index_of(q)],
    ensures
        flood_state(
            g,
            before,
            seed,
            queue.push(q),
            seen.update(g.index_of(q), true),
            parents.push(head),
            head,
            d + 1,
        ),
{
    let queue2 = queue.push(q);
    let seen2 = seen.update(g.index_of(q), true);
    let parents2 = parents.push(head);
    let last = queue.len() as int;
    lemma_index_in_range(g, q);
    lemma_connected_step(g, seed, queue[head], q);
    assert(!queue.contains(q));
    assert(queue2.no_duplicates());
    assert forall|k: int| 0 <= k < queue2.len() implies g.lit(#[trigger] queue2[k]) && !before[g.index_of(
        queue2[k],
    )] && connected(g, seed, queue2[k]) by {
        if k < last {
            assert(queue2[k] == queue[k]);
        }
    }
    assert forall|p: Point| g.contains(p) implies (seen2[#[trigger] g.index_of(p)]
        <==> before[g.index_of(p)] || queue2.contains(p)) by {
        lemma_index_in_range(g, p);
        if g.index_of(p) == g.index_of(q) {
            lemma_index_injective(g, p, q);
            assert(queue2[last] == q);
        } else {
            if queue.contains(p) {
                let k = choose|k: int| 0 <= k < queue.len() && queue[k] == p;
                assert(queue2[k] == p);
            }
            if queue2.contains(p) {
                let k = choose|k: int| 0 <= k < queue2.len() && queue2[k] == p;
                assert(queue[k] == p);
            }
        }
    }
    assert forall|k: int, r: Point|
        0 <= k < head && g.lit(r) && #[trigger] adjacent(queue2[k], r) implies seen2[g.index_of(
        r,
    )] by {
        lemma_index_in_range(g, r);
        assert(adjacent(queue[k], r));
    }
    assert forall|r: Point|
        g.lit(r) && #[trigger] adjacent(queue2[head], r) && direction(queue2[head], r) < d
            + 1 implies seen2[g.index_of(r)] by {
        lemma_index_in_range(g, r);
        assert(adjacent(queue[head], r));
    }
    assert forall|m: int| 0 <= m < head implies !adjacent(#[trigger] queue2[m], queue2[last]) by {
        if adjacent(queue[m], q) {
            assert(seen[g.index_of(q)]);
        }
    }
    assert forall|i: int| 1 <= i < queue2.len() implies is_discoverer(
        queue2,
        i,
        #[trigger] parents2[i],
    ) by {
        if i < last {
            assert(is_discoverer(queue, i, parents[i]));
            assert(parents2[i] == parents[i]);
            assert forall|m: int| 0 <= m < parents[i] implies !adjacent(
                #[trigger] queue2[m],
                queue2[i],
            ) by {
                assert(!adjacent(queue[m], queue[i]));
            }
        }
    }
    assert forall|i: int| 1 <= i < queue2.len() implies #[trigger] parents2[i] * 9 + direction(
        queue2[parents2[i]],
        queue2[i],
    ) < head * 9 + (d + 1) by {
        if i < last {
            assert(parents2[i] == parents[i]);
            assert(is_discoverer(queue, i, parents[i]));
        }
    }
    assert forall|i: int, k: int| 1 <= i < k < queue2.len() implies #[trigger] parents2[i] * 9
        + direction(queue2[parents2[i]], queue2[i]) < #[trigger] parents2[k] * 9 + direction(
        queue2[parents2[k]],
        queue2[k],
    ) by {
        assert(parents2[i] == parents[i]);
        assert(is_discoverer(queue, i, parents[i]));
        if k < last {
            assert(parents2[k] == parents[k]);
            assert(is_discoverer(queue, k, parents[k]));
        }
    }
}

/// The state after direction `d` held nothing new.
proof fn lemma_flood_skip(
    g: Grid,
    before: Seq<bool>,
    seed: Point,
    queue: Seq<Point>,
    seen: Seq<bool>,
    parents: Seq<int>,
    head: int,
    d: int,
)
    requires
        flood_state(g, before, seed, queue, seen, parents, head, d),
        head < queue.len(),
        d < 9,
        forall|q: Point|
            g.lit(q) && #[trigger] adjacent(queue[head], q) && direction(queue[head], q) == d
                ==> seen[g.index_of(q)],
    ensures
        flood_state(g, before, seed, queue, seen, parents, head, d + 1),
{
}

/// The state after the last direction, seen from the next pixel of the queue.
proof fn lemma_flood_next(
    g: Grid,
    before: Seq<bool>,
    seed: Point,
    queue: Seq<Point>,
    seen: Seq<bool>,
    parents: Seq<int>,
    head: int,
)
    requires
        flood_state(g, before, seed, queue, seen, parents, head, 9),
        head < queue.len(),
    ensures
        flood_state(g, before, seed, queue, seen, parents, head + 1, 0),
{
    assert forall|k: int, q: Point|
        0 <= k < head + 1 && g.lit(q) && #[trigger] adjacent(queue[k], q) implies seen[g.index_of(
        q,
    )] by {
        if k == head {
            assert(direction(queue[head], q) < 9);
        }
    }
}

/// Lists the connected component of `seed` in breadth-first order and flags
/// its pixels in `seen`.
pub fn flood(mask: &Mask, seen: &mut Vec<bool>, seed: Point) -> (c: Vec<Point>)
    requires
        mask.wf(),
        marks_components(mask@, old(seen)@),
        mask@.lit(seed),
        !old(seen)@[mask@.index_of(seed)],
    ensures
        is_traversal(mask@, c@),
        c@[0] == seed,
        marks_components(mask@, final(seen)@),
        forall|p: Point|
            mask@.contains(p) ==> (final(seen)@[#[trigger] mask@.index_of(p)] <==> old(
                seen,
            )@[mask@.index_of(p)] || c@.contains(p)),
        forall|k: int| 0 <= k < c@.len() ==> !old(seen)@[mask@.index_of(#[trigger] c@[k])],
{
    let w: u32 = mask.width();
    let h: u32 = mask.height();
    let ghost n = seen@.len();
    let ghost g = mask@;
    let ghost before = seen@;
    let mut queue: Vec<Point> = Vec::new();
    assert(seen.len() == w * h);
    let first: usize = cell_index(w, h, seed);
    seen.set(first, true);
    queue.push(seed);
    let ghost mut parents: Seq<int> = seq![0int];
    let mut head: usize = 0;
    proof {
        lemma_flood_start(g, before, seed);
        assert(queue@ =~= seq![seed]);
    }
    while head < queue.len()
        invariant
            flood_state(g, before, seed, queue@, seen@, parents, head as int, 0),
            g == mask@,
            mask.wf(),
            w == g.width,
            h == g.height,
            n == g.cells.len(),
        decreases n - head,
    {
        proof {
            lemma_distinct_points_bounded(g, queue@);
        }
        let p: Point = queue[head];
        let mut d: u32 = 0;
        while d < 9
            invariant
                flood_state(g, before, seed, queue@, seen@, parents, head as int, d as int),
                g == mask@,
                mask.wf(),
                w == g.width,
                h == g.height,
                n == g.cells.len(),
                head < queue@.len(),
                p == queue@[head as int],
                0 <= d <= 9,
            decreases 9 - d,
        {
            let dx: u32 = d % 3;
            let dy: u32 = d / 3;
            let ghost old_queue = queue@;
            let ghost old_seen = seen@;
            let mut pushed: bool = false;
            if d != 4 && (dx != 0 || p.x > 0) && (dy != 0 || p.y > 0) && (dx != 2 || p.x + 1 < w)
                && (dy != 2 || p.y + 1 < h) {
                let q: Point = Point { x: p.x + dx - 1, y: p.y + dy - 1 };
                if mask.get(q) {
                    assert(seen.len() == w * h);
                    let i: usize = cell_index(w, h, q);
                    if !seen[i] {
                        seen.set(i, true);
                        queue.push(q);
                        pushed = true;
                        proof {
                            lemma_flood_push(
                                g,
                                before,
                                seed,
                                old_queue,
                                old_seen,
                                parents,
                                head as int,
                                d as int,
                                q,
                            );
                            parents = parents.push(head as int);
                        }
                    }
                }
            }
            proof {
                if !pushed {
                    lemma_flood_skip(
                        g,
                        before,
                        seed,
                        old_queue,
                        old_seen,
                        parents,
                        head as int,
                        d as int,
                    );
                }
            }
            d += 1;
        }
        proof {
            lemma_flood_next(g, before, seed, queue@, seen@, parents, head as int);
        }
        head += 1;
    }
    proof {
        lemma_flood_done(g, before, seed, queue@, seen@, parents);
        assert forall|p: Point| mask@.contains(p) implies (seen@[#[trigger] mask@.index_of(p)]
            <==> before[mask@.index_of(p)] || queue@.contains(p)) by {}
    }
    queue
}

} // verus!
