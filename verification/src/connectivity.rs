//! Connected components of the set pixels of a grid, under the
//! eight-neighbourhood, and the order in which a breadth-first traversal
//! lists them.

use vstd::prelude::*;
use crate::geometry::{adjacent, direction, precedes, Point};
use crate::grid::Grid;

verus! {

/// A non-empty walk over set pixels, each step to an adjacent pixel.
pub open spec fn is_path(g: Grid, path: Seq<Point>) -> bool {
    &&& path.len() > 0
    &&& forall|i: int| 0 <= i < path.len() ==> g.lit(#[trigger] path[i])
    &&& forall|i: int| 0 <= i < path.len() - 1 ==> adjacent(#[trigger] path[i], path[i + 1])
}

/// `a` and `b` are set pixels of the same connected component.
pub open spec fn connected(g: Grid, a: Point, b: Point) -> bool {
    exists|path: Seq<Point>| is_path(g, path) && path[0] == a && path.last() == b
}

/// `j` is the first place in `c` that holds a neighbour of `c[i]`, and it
/// comes before `i`.
pub open spec fn is_discoverer(c: Seq<Point>, i: int, j: int) -> bool {
    &&& 0 <= j < i < c.len()
    &&& adjacent(c[j], c[i])
    &&& forall|m: int| 0 <= m < j ==> !adjacent(#[trigger] c[m], c[i])
}

/// The place in `c` of the pixel from which `c[i]` was discovered.
pub open spec fn discoverer(c: Seq<Point>, i: int) -> int {
    choose|j: int| is_discoverer(c, i, j)
}

/// Orders the pixels of a traversal: by discoverer, then by the direction in
/// which the discoverer sees the pixel.
pub open spec fn discovery_key(c: Seq<Point>, i: int) -> int {
    discoverer(c, i) * 9 + direction(c[discoverer(c, i)], c[i])
}

/// `c` lists the connected component of its first pixel in breadth-first
/// order: every pixel of the component once, each later pixel after the first
/// of its neighbours in `c`, the pixels found from one pixel before those
/// found from a later one, and those found from the same pixel row by row.
pub open spec fn is_traversal(g: Grid, c: Seq<Point>) -> bool {
    &&& c.len() > 0
    &&& c.no_duplicates()
    &&& forall|q: Point| c.contains(q) <==> connected(g, c[0], q)
    &&& forall|i: int| 1 <= i < c.len() ==> is_discoverer(c, i, #[trigger] discoverer(c, i))
    &&& forall|i: int, k: int|
        1 <= i < k < c.len() ==> #[trigger] discovery_key(c, i) < #[trigger] discovery_key(c, k)
}

/// `all` lists the connected components of `g`: each a traversal that starts
/// at the pixel of the component that comes first row by row, the components
/// in the order of their first pixels, and every set pixel in one of them.
pub open spec fn is_partition(g: Grid, all: Seq<Seq<Point>>) -> bool {
    &&& forall|i: int| 0 <= i < all.len() ==> is_traversal(g, #[trigger] all[i])
    &&& forall|i: int, k: int|
        0 <= i < all.len() && 0 <= k < all[i].len() ==> !precedes(#[trigger] all[i][k], all[i][0])
    &&& forall|i: int, j: int|
        0 <= i < j < all.len() ==> precedes(#[trigger] all[i][0], #[trigger] all[j][0])
    &&& forall|p: Point| #[trigger]
        g.lit(p) ==> exists|i: int| 0 <= i < all.len() && #[trigger] all[i].contains(p)
}

/// The connected components of `g`, as `is_partition` describes them.
pub open spec fn components(g: Grid) -> Seq<Seq<Point>> {
    choose|all: Seq<Seq<Point>>| is_partition(g, all)
}

/// A set pixel is connected to itself.
pub proof fn lemma_connected_reflexive(g: Grid, a: Point)
    requires
        g.lit(a),
    ensures
        connected(g, a, a),
{
    let path = seq![a];
    assert(is_path(g, path) && path[0] == a && path.last() == a);
}

/// Connected pixels are set.
pub proof fn lemma_connected_lit(g: Grid, a: Point, b: Point)
    requires
        connected(g, a, b),
    ensures
        g.lit(a),
        g.lit(b),
{
    let path = choose|path: Seq<Point>| is_path(g, path) && path[0] == a && path.last() == b;
    assert(g.lit(path[0]));
    assert(g.lit(path[path.len() - 1]));
}

/// A walk goes on to a set neighbour of its end.
pub proof fn lemma_connected_step(g: Grid, a: Point, b: Point, c: Point)
    requires
        connected(g, a, b),
        g.lit(c),
        adjacent(b, c),
    ensures
        connected(g, a, c),
{
    let path = choose|path: Seq<Point>| is_path(g, path) && path[0] == a && path.last() == b;
    let longer = path.push(c);
    assert forall|i: int| 0 <= i < longer.len() implies g.lit(#[trigger] longer[i]) by {
        if i < path.len() {
            assert(longer[i] == path[i]);
        }
    }
    assert forall|i: int| 0 <= i < longer.len() - 1 implies adjacent(
        #[trigger] longer[i],
        longer[i + 1],
    ) by {
        assert(longer[i] == path[i]);
        if i + 1 < path.len() {
            assert(longer[i + 1] == path[i + 1]);
        }
    }
    assert(is_path(g, longer) && longer[0] == a && longer.last() == c);
}

/// A walk can be taken backwards.
pub proof fn lemma_connected_symmetric(g: Grid, a: Point, b: Point)
    requires
        connected(g, a, b),
    ensures
        connected(g, b, a),
{
    let path = choose|path: Seq<Point>| is_path(g, path) && path[0] == a && path.last() == b;
    let back = path.reverse();
    assert forall|i: int| 0 <= i < back.len() implies g.lit(#[trigger] back[i]) by {
        assert(back[i] == path[path.len() - 1 - i]);
    }
    assert forall|i: int| 0 <= i < back.len() - 1 implies adjacent(
        #[trigger] back[i],
        back[i + 1],
    ) by {
        let k = path.len() - 2 - i;
        assert(back[i] == path[k + 1]);
        assert(back[i + 1] == path[k]);
        assert(adjacent(path[k], path[k + 1]));
    }
    assert(is_path(g, back) && back[0] == b && back.last() == a);
}

/// A set of pixels that holds the set neighbours of its members holds every
/// pixel connected to one of them.
pub proof fn lemma_closed_holds_connected(g: Grid, s: Set<Point>, a: Point, b: Point)
    requires
        forall|p: Point, q: Point|
            s.contains(p) && g.lit(q) && #[trigger] adjacent(p, q) ==> s.contains(q),
        s.contains(a),
        connected(g, a, b),
    ensures
        s.contains(b),
{
    let path = choose|path: Seq<Point>| is_path(g, path) && path[0] == a && path.last() == b;
    lemma_closed_holds_path(g, s, path, path.len() - 1);
}

proof fn lemma_closed_holds_path(g: Grid, s: Set<Point>, path: Seq<Point>, n: int)
    requires
        forall|p: Point, q: Point|
            s.contains(p) && g.lit(q) && #[trigger] adjacent(p, q) ==> s.contains(q),
        is_path(g, path),
        s.contains(path[0]),
        0 <= n < path.len(),
    ensures
        s.contains(path[n]),
    decreases n,
{
    if n > 0 {
        lemma_closed_holds_path(g, s, path, n - 1);
        assert(adjacent(path[n - 1], path[n - 1 + 1]));
        assert(g.lit(path[n]));
    }
}

/// At most one place is the discoverer of `c[i]`.
pub proof fn lemma_discoverer_unique(c: Seq<Point>, i: int, j: int)
    requires
        is_discoverer(c, i, j),
    ensures
        discoverer(c, i) == j,
{
    let d = discoverer(c, i);
    assert(is_discoverer(c, i, d));
    if d < j {
        assert(!adjacent(c[d], c[i]));
    } else if j < d {
        assert(!adjacent(c[j], c[i]));
    }
}

/// Where two sequences agree before `k` and `d[m]`, not before `k`, is the
/// pixel `c[k]`, the two were discovered from the same place.
proof fn lemma_key_transfer(c: Seq<Point>, d: Seq<Point>, k: int, m: int)
    requires
        1 <= k < c.len(),
        k <= m < d.len(),
        forall|i: int| 0 <= i < k ==> c[i] == d[i],
        d[m] == c[k],
        is_discoverer(c, k, discoverer(c, k)),
        is_discoverer(d, m, discoverer(d, m)),
    ensures
        discovery_key(d, m) == discovery_key(c, k),
{
    let jc = discoverer(c, k);
    let jd = discoverer(d, m);
    assert(d[jc] == c[jc]);
    if jc < jd {
        assert(!adjacent(d[jc], d[m]));
    }
    assert(c[jd] == d[jd]);
    if jd < jc {
        assert(!adjacent(c[jd], c[k]));
    }
}

proof fn lemma_traversal_agree(g: Grid, c: Seq<Point>, d: Seq<Point>, n: int)
    requires
        is_traversal(g, c),
        is_traversal(g, d),
        c[0] == d[0],
        0 <= n <= c.len(),
        n <= d.len(),
    ensures
        forall|i: int| 0 <= i < n ==> c[i] == d[i],
    decreases n,
{
    if n > 1 {
        lemma_traversal_agree(g, c, d, n - 1);
        let k = n - 1;
        let x = c[k];
        let y = d[k];
        assert(c.contains(x));
        assert(d.contains(y));
        assert(d.contains(x));
        assert(c.contains(y));
        let m = choose|m: int| 0 <= m < d.len() && d[m] == x;
        let m2 = choose|m2: int| 0 <= m2 < c.len() && c[m2] == y;
        if m < k {
            assert(c[m] == d[m]);
        }
        if m2 < k {
            assert(d[m2] == c[m2]);
        }
        if m != k {
            assert(is_discoverer(c, k, discoverer(c, k)));
            assert(is_discoverer(d, m, discoverer(d, m)));
            lemma_key_transfer(c, d, k, m);
            assert(discovery_key(d, k) < discovery_key(d, m));
            assert(m2 != k);
            assert(is_discoverer(d, k, discoverer(d, k)));
            assert(is_discoverer(c, m2, discoverer(c, m2)));
            lemma_key_transfer(d, c, k, m2);
            assert(discovery_key(c, k) < discovery_key(c, m2));
        }
    }
}

/// A component has one traversal from a given pixel.
pub proof fn lemma_traversal_unique(g: Grid, c: Seq<Point>, d: Seq<Point>)
    requires
        is_traversal(g, c),
        is_traversal(g, d),
        c[0] == d[0],
    ensures
        c == d,
{
    assert(c.to_set() =~= d.to_set());
    c.unique_seq_to_set();
    d.unique_seq_to_set();
    lemma_traversal_agree(g, c, d, c.len() as int);
    assert(c =~= d);
}

/// Two traversals that start at the first pixel of their component, one of
/// them holding the first pixel of the other, start at the same pixel.
proof fn lemma_same_seed(g: Grid, c: Seq<Point>, d: Seq<Point>)
    requires
        is_traversal(g, c),
        is_traversal(g, d),
        forall|k: int| 0 <= k < c.len() ==> !precedes(#[trigger] c[k], c[0]),
        forall|k: int| 0 <= k < d.len() ==> !precedes(#[trigger] d[k], d[0]),
        d.contains(c[0]),
    ensures
        c[0] == d[0],
{
    let s = c[0];
    let t = d[0];
    lemma_connected_symmetric(g, t, s);
    assert(c.contains(t));
    let k = choose|k: int| 0 <= k < c.len() && c[k] == t;
    assert(!precedes(c[k], c[0]));
    let k2 = choose|k2: int| 0 <= k2 < d.len() && d[k2] == s;
    assert(!precedes(d[k2], d[0]));
}

/// The first pixel of a component in one partition is the first pixel of a
/// component in any other.
proof fn lemma_seed_shared(g: Grid, a: Seq<Seq<Point>>, b: Seq<Seq<Point>>, i: int) -> (j: int)
    requires
        is_partition(g, a),
        is_partition(g, b),
        0 <= i < a.len(),
    ensures
        0 <= j < b.len(),
        b[j][0] == a[i][0],
{
    let c = a[i];
    let s = c[0];
    assert(is_traversal(g, c));
    assert(c.contains(s));
    lemma_connected_lit(g, s, s);
    assert(g.lit(s));
    let j = choose|j: int| 0 <= j < b.len() && #[trigger] b[j].contains(s);
    let d = b[j];
    assert(is_traversal(g, d));
    assert forall|k: int| 0 <= k < c.len() implies !precedes(#[trigger] c[k], c[0]) by {
        assert(!precedes(a[i][k], a[i][0]));
    }
    assert forall|k: int| 0 <= k < d.len() implies !precedes(#[trigger] d[k], d[0]) by {
        assert(!precedes(b[j][k], b[j][0]));
    }
    lemma_same_seed(g, c, d);
    j
}

proof fn lemma_partition_agree(g: Grid, a: Seq<Seq<Point>>, b: Seq<Seq<Point>>, n: int)
    requires
        is_partition(g, a),
        is_partition(g, b),
        0 <= n <= a.len(),
    ensures
        n <= b.len(),
        forall|i: int| 0 <= i < n ==> (#[trigger] a[i])[0] == b[i][0],
    decreases n,
{
    if n > 0 {
        lemma_partition_agree(g, a, b, n - 1);
        let i = n - 1;
        let j = lemma_seed_shared(g, a, b, i);
        if j < i {
            assert(a[j][0] == b[j][0]);
            assert(precedes(a[j][0], a[i][0]));
        }
        let j2 = lemma_seed_shared(g, b, a, i);
        if j2 < i {
            assert(a[j2][0] == b[j2][0]);
            assert(precedes(b[j2][0], b[i][0]));
        }
        if j > i {
            assert(precedes(b[i][0], b[j][0]));
        }
        if j2 > i {
            assert(precedes(a[i][0], a[j2][0]));
        }
    }
}

/// A grid has one list of components.
pub proof fn lemma_partition_unique(g: Grid, a: Seq<Seq<Point>>, b: Seq<Seq<Point>>)
    requires
        is_partition(g, a),
        is_partition(g, b),
    ensures
        a == b,
{
    lemma_partition_agree(g, a, b, a.len() as int);
    lemma_partition_agree(g, b, a, b.len() as int);
    assert forall|i: int| 0 <= i < a.len() implies a[i] == b[i] by {
        assert(is_traversal(g, a[i]));
        assert(is_traversal(g, b[i]));
        lemma_traversal_unique(g, a[i], b[i]);
    }
    assert(a =~= b);
}

/// A list that `is_partition` accepts is the list of components.
pub proof fn lemma_components_are(g: Grid, all: Seq<Seq<Point>>)
    requires
        is_partition(g, all),
    ensures
        components(g) == all,
{
    lemma_partition_unique(g, components(g), all);
}

} // verus!
