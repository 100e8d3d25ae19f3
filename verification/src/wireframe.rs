//! The outline of a mesh: the edges that belong to one triangle only.

use vstd::prelude::*;

verus! {

/// Number of triangle sides in an index buffer; indices past the last whole
/// triangle do not count.
pub open spec fn side_count(indices: Seq<u32>) -> int {
    3 * (indices.len() as int / 3)
}

/// Side `k` of an index buffer: side `k % 3` of triangle `k / 3`, with the
/// smaller vertex first.
pub open spec fn side_at(indices: Seq<u32>, k: int) -> (u32, u32) {
    let from = indices[3 * (k / 3) + k % 3];
    let to = indices[3 * (k / 3) + (k % 3 + 1) % 3];
    if from < to {
        (from, to)
    } else {
        (to, from)
    }
}

/// How many of the first `upto` sides run along `edge`.
pub open spec fn edge_uses(indices: Seq<u32>, edge: (u32, u32), upto: int) -> nat
    decreases upto,
{
    if upto <= 0 {
        0
    } else {
        let earlier = edge_uses(indices, edge, upto - 1);
        if side_at(indices, upto - 1) == edge {
            earlier + 1
        } else {
            earlier
        }
    }
}

/// `edge` is on the outline: exactly one triangle has it as a side.
pub open spec fn on_outline(indices: Seq<u32>, edge: (u32, u32)) -> bool {
    edge_uses(indices, edge, side_count(indices)) == 1
}

/// An edge counts at least once for every side that runs along it.
proof fn lemma_uses_grow(indices: Seq<u32>, edge: (u32, u32), from: int, upto: int)
    requires
        0 <= from <= upto,
    ensures
        edge_uses(indices, edge, from) <= edge_uses(indices, edge, upto),
        from < upto && side_at(indices, from) == edge ==> edge_uses(indices, edge, from)
            < edge_uses(indices, edge, upto),
    decreases upto - from,
{
    if from < upto {
        lemma_uses_grow(indices, edge, from, upto - 1);
    }
}

/// An edge that is used at all is the edge of one of the sides.
proof fn lemma_used_edge_is_a_side(indices: Seq<u32>, edge: (u32, u32), upto: int) -> (k: int)
    requires
        edge_uses(indices, edge, upto) > 0,
    ensures
        0 <= k < upto,
        side_at(indices, k) == edge,
    decreases upto,
{
    if side_at(indices, upto - 1) == edge {
        upto - 1
    } else {
        lemma_used_edge_is_a_side(indices, edge, upto - 1)
    }
}

/// Reads side `k` of the index buffer.
fn side(indices: &Vec<u32>, k: usize) -> (edge: (u32, u32))
    requires
        k < side_count(indices@),
    ensures
        edge == side_at(indices@, k as int),
{
    let len: usize = indices.len();
    let base: usize = 3 * (k / 3);
    assert(base + 3 <= len);
    let from: u32 = indices[base + k % 3];
    let to: u32 = indices[base + (k % 3 + 1) % 3];
    if from < to {
        (from, to)
    } else {
        (to, from)
    }
}

/// Counts the sides that run along `edge`.
fn count_uses(indices: &Vec<u32>, edge: (u32, u32)) -> (uses: usize)
    ensures
        uses == edge_uses(indices@, edge, side_count(indices@)),
{
    let sides: usize = 3 * (indices.len() / 3);
    let mut uses: usize = 0;
    let mut k: usize = 0;
    while k < sides
        invariant
            sides == side_count(indices@),
            k <= sides,
            uses <= k,
            uses == edge_uses(indices@, edge, k as int),
        decreases sides - k,
    {
        let here = side(indices, k);
        if here.0 == edge.0 && here.1 == edge.1 {
            uses += 1;
        }
        k += 1;
    }
    uses
}

/// Lists the edges on the outline of a mesh: those that are a side of
/// exactly one triangle. Each is listed once, smaller vertex first.
pub fn border_edges(indices: &Vec<u32>) -> (edges: Vec<(u32, u32)>)
    ensures
        edges@.no_duplicates(),
        forall|edge: (u32, u32)| #[trigger] edges@.contains(edge) <==> on_outline(indices@, edge),
{
    let sides: usize = 3 * (indices.len() / 3);
    let mut edges: Vec<(u32, u32)> = Vec::new();
    let mut k: usize = 0;
    while k < sides
        invariant
            sides == side_count(indices@),
            k <= sides,
            edges@.no_duplicates(),
            forall|edge: (u32, u32)| #[trigger]
                edges@.contains(edge) <==> (on_outline(indices@, edge) && exists|j: int|
                    0 <= j < k && #[trigger] side_at(indices@, j) == edge),
        decreases sides - k,
    {
        let here = side(indices, k);
        let ghost before = edges@;
        if count_uses(indices, here) == 1 {
            proof {
                if before.contains(here) {
                    let j = choose|j: int| 0 <= j < k && #[trigger] side_at(indices@, j) == here;
                    lemma_uses_grow(indices@, here, j, k as int);
                    lemma_uses_grow(indices@, here, k as int, sides as int);
                    lemma_uses_grow(indices@, here, 0, j);
                }
            }
            edges.push(here);
            proof {
                assert forall|edge: (u32, u32)| #[trigger]
                    edges@.contains(edge) <==> (before.contains(edge) || edge == here) by {
                    if before.contains(edge) {
                        let i = choose|i: int| 0 <= i < before.len() && before[i] == edge;
                        assert(edges@[i] == edge);
                    }
                    if edge == here {
                        assert(edges@[before.len() as int] == edge);
                    }
                }
            }
        }
        proof {
            assert forall|edge: (u32, u32)| #[trigger]
                edges@.contains(edge) <==> (on_outline(indices@, edge) && exists|j: int|
                    0 <= j < k + 1 && #[trigger] side_at(indices@, j) == edge) by {
                if on_outline(indices@, edge) && exists|j: int|
                    0 <= j < k + 1 && #[trigger] side_at(indices@, j) == edge {
                    let j = choose|j: int| 0 <= j < k + 1 && #[trigger] side_at(indices@, j) == edge;
                    if j < k {
                        assert(before.contains(edge));
                    } else {
                        assert(edge == here);
                    }
                }
                if before.contains(edge) {
                    let j = choose|j: int| 0 <= j < k && #[trigger] side_at(indices@, j) == edge;
                    assert(0 <= j < k + 1);
                }
                if edge == here && on_outline(indices@, here) {
                    assert(side_at(indices@, k as int) == edge);
                }
            }
        }
        k += 1;
    }
    proof {
        assert forall|edge: (u32, u32)| #[trigger]
            edges@.contains(edge) <==> on_outline(indices@, edge) by {
            if on_outline(indices@, edge) {
                let j = lemma_used_edge_is_a_side(indices@, edge, sides as int);
                assert(side_at(indices@, j) == edge);
            }
        }
    }
    edges
}

} // verus!
