use vstd::prelude::*;

verus! {

/// Vertices of the 4-D hypercube.
pub const VERTEX_COUNT: usize = 16;

/// Edges of the 4-D hypercube.
pub const EDGE_COUNT: usize = 32;

pub open spec fn pow2(j: int) -> int
    decreases j,
{
    if j <= 0 { 1 } else { 2 * pow2(j - 1) }
}

/// Bit `j` of the vertex index `i`: it selects the vertex's coordinate on axis
/// `j`, `+1/2` when set and `-1/2` when clear.
pub open spec fn bit(i: int, j: int) -> int {
    (i / pow2(j)) % 2
}

proof fn lemma_pow2_values()
    ensures
        pow2(0) == 1,
        pow2(1) == 2,
        pow2(2) == 4,
        pow2(3) == 8,
        pow2(4) == 16,
{
    reveal_with_fuel(pow2, 5);
}

/// Vertices `i < k` differ in exactly one of the four bits of their indices.
pub open spec fn adjacent(i: int, k: int) -> bool {
    exists|j: int| 0 <= j < 4 && bit(i, j) == 0 && k == i + pow2(j)
}

/// How many of bits `0 .. j` of `i` are clear.
pub open spec fn clear_bits_below(i: int, j: int) -> int
    decreases j,
{
    if j <= 0 { 0 } else { clear_bits_below(i, j - 1) + if bit(i, j - 1) == 0 { 1int } else { 0 } }
}

/// How many edges start at a vertex below `i`.
pub open spec fn edges_before(i: int) -> int
    decreases i,
{
    if i <= 0 { 0 } else { edges_before(i - 1) + clear_bits_below(i - 1, 4) }
}

proof fn lemma_edge_total()
    ensures
        edges_before(16) == 32,
{
    reveal_with_fuel(edges_before, 17);
    reveal_with_fuel(clear_bits_below, 5);
    lemma_pow2_values();
}

/// Coordinate signs of vertex `i`: `-1` or `1` on each of the four axes.
pub fn corner_signs(i: usize) -> (r: [i8; 4])
    requires
        i < VERTEX_COUNT,
    ensures
        forall|j: int| 0 <= j < 4 ==> r@[j] == if bit(i as int, j) == 1 { 1i8 } else { -1i8 },
{
    let mut r: [i8; 4] = [-1, -1, -1, -1];
    let mut j: usize = 0;
    let mut p: usize = 1;
    while j < 4
        invariant
            j <= 4,
            p == pow2(j as int),
            i < 16,
            forall|t: int| 0 <= t < j ==> r@[t] == if bit(i as int, t) == 1 { 1i8 } else { -1i8 },
            forall|t: int| j <= t < 4 ==> r@[t] == -1i8,
        decreases 4 - j,
    {
        proof {
            lemma_pow2_values();
            assert(p == 1 || p == 2 || p == 4 || p == 8);
        }
        if (i / p) % 2 == 1 {
            r[j] = 1;
        }
        j = j + 1;
        p = p * 2;
    }
    r
}

/// The 32 edges of the hypercube, each `(i, k)` with `i < k` and the indices
/// one bit apart, ordered by `i` and then by that bit.
#[verifier::rlimit(100)]
pub fn hypercube_edges() -> (r: Vec<(usize, usize)>)
    ensures
        r@.len() == EDGE_COUNT,
        forall|e: int|
            0 <= e < r@.len() ==> r@[e].0 < (#[trigger] r@[e]).1 < VERTEX_COUNT && adjacent(
                r@[e].0 as int,
                r@[e].1 as int,
            ),
        forall|i: int, j: int|
            0 <= i < VERTEX_COUNT && 0 <= j < 4 && bit(i, j) == 0 ==> exists|e: int|
                0 <= e < r@.len() && #[trigger] r@[e] == (i as usize, (i + pow2(j)) as usize),
        forall|a: int, b: int|
            0 <= a < b < r@.len() ==> r@[a].0 < r@[b].0 || (r@[a].0 == r@[b].0 && r@[a].1
                < r@[b].1),
{
    let mut edges: Vec<(usize, usize)> = Vec::new();
    let mut i: usize = 0;
    while i < VERTEX_COUNT
        invariant
            i <= VERTEX_COUNT,
            edges@.len() == edges_before(i as int),
            forall|e: int|
                0 <= e < edges@.len() ==> edges@[e].0 < (#[trigger] edges@[e]).1 < VERTEX_COUNT
                    && edges@[e].0 < i && adjacent(edges@[e].0 as int, edges@[e].1 as int),
            forall|v: int, j: int|
                0 <= v < i && 0 <= j < 4 && bit(v, j) == 0 ==> exists|e: int|
                    0 <= e < edges@.len() && #[trigger] edges@[e] == (v as usize, (v + pow2(
                        j,
                    )) as usize),
            forall|a: int, b: int|
                0 <= a < b < edges@.len() ==> edges@[a].0 < edges@[b].0 || (edges@[a].0
                    == edges@[b].0 && edges@[a].1 < edges@[b].1),
        decreases VERTEX_COUNT - i,
    {
        let ghost start = edges@.len();
        let mut j: usize = 0;
        let mut p: usize = 1;
        while j < 4
            invariant
                i < VERTEX_COUNT,
                j <= 4,
                p == pow2(j as int),
                start == edges_before(i as int),
                edges@.len() == start + clear_bits_below(i as int, j as int),
                start <= edges@.len(),
                forall|e: int|
                    0 <= e < edges@.len() ==> edges@[e].0 < (#[trigger] edges@[e]).1 < VERTEX_COUNT
                        && edges@[e].0 <= i && adjacent(edges@[e].0 as int, edges@[e].1 as int),
                forall|e: int| start <= e < edges@.len() ==> (#[trigger] edges@[e]).0 == i && edges@[e].1 < i + p,
                forall|e: int| 0 <= e < start ==> (#[trigger] edges@[e]).0 < i,
                forall|v: int, t: int|
                    0 <= v < i && 0 <= t < 4 && bit(v, t) == 0 ==> exists|e: int|
                        0 <= e < edges@.len() && #[trigger] edges@[e] == (v as usize, (v + pow2(
                            t,
                        )) as usize),
                forall|t: int|
                    0 <= t < j && bit(i as int, t) == 0 ==> exists|e: int|
                        0 <= e < edges@.len() && #[trigger] edges@[e] == (i, (i + pow2(
                            t,
                        )) as usize),
                forall|a: int, b: int|
                    0 <= a < b < edges@.len() ==> edges@[a].0 < edges@[b].0 || (edges@[a].0
                        == edges@[b].0 && edges@[a].1 < edges@[b].1),
            decreases 4 - j,
        {
            proof {
                lemma_pow2_values();
                assert(p == 1 || p == 2 || p == 4 || p == 8);
            }
            if (i / p) % 2 == 0 {
                let ghost old_edges = edges@;
                proof {
                    assert(bit(i as int, j as int) == 0);
                    assert(i + p < VERTEX_COUNT) by {
                        assert(p == 1 || p == 2 || p == 4 || p == 8);
                    }
                }
                edges.push((i, i + p));
                proof {
                    assert(adjacent(i as int, (i + p) as int));
                    assert forall|e: int| 0 <= e < start implies (#[trigger] edges@[e]).0 < i by {
                        assert(edges@[e] == old_edges[e]);
                    }
                    assert forall|v: int, t: int|
                        0 <= v < i && 0 <= t < 4 && bit(v, t) == 0 implies exists|e: int|
                            0 <= e < edges@.len() && #[trigger] edges@[e] == (v as usize, (v
                                + pow2(t)) as usize) by {
                        let e = choose|e: int|
                            0 <= e < old_edges.len() && #[trigger] old_edges[e] == (v as usize, (v
                                + pow2(t)) as usize);
                        assert(edges@[e] == old_edges[e]);
                    }
                    assert forall|t: int|
                        0 <= t < j + 1 && bit(i as int, t) == 0 implies exists|e: int|
                            0 <= e < edges@.len() && #[trigger] edges@[e] == (i, (i + pow2(
                                t,
                            )) as usize) by {
                        if t < j {
                            let e = choose|e: int|
                                0 <= e < old_edges.len() && #[trigger] old_edges[e] == (i, (i
                                    + pow2(t)) as usize);
                            assert(edges@[e] == old_edges[e]);
                        } else {
                            assert(edges@[old_edges.len() as int] == (i, (i + pow2(t)) as usize));
                        }
                    }
                }
            }
            j = j + 1;
            p = p * 2;
        }
        i = i + 1;
    }
    proof {
        lemma_edge_total();
    }
    edges
}

/// The endpoint of each line-segment vertex that the edge list emits: two
/// entries per edge, its first vertex and then its second, in edge order.
pub fn edge_endpoints(edges: &Vec<(usize, usize)>) -> (r: Vec<usize>)
    requires
        edges@.len() <= usize::MAX / 2,
    ensures
        r@.len() == 2 * edges@.len(),
        forall|e: int|
            0 <= e < edges@.len() ==> r@[2 * e] == edges@[e].0 && r@[2 * e + 1] == edges@[e].1,
{
    let mut r: Vec<usize> = Vec::new();
    let mut e: usize = 0;
    while e < edges.len()
        invariant
            e <= edges@.len(),
            edges@.len() <= usize::MAX / 2,
            r@.len() == 2 * e,
            forall|f: int| 0 <= f < e ==> r@[2 * f] == edges@[f].0 && r@[2 * f + 1] == edges@[f].1,
        decreases edges@.len() - e,
    {
        r.push(edges[e].0);
        r.push(edges[e].1);
        e = e + 1;
    }
    r
}

} // verus!
