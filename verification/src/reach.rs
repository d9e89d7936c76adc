//! Connectivity of the open region: every space cell is joined to the start
//! by a path of cardinal-adjacent space cells.

use vstd::prelude::*;

use crate::cell::Cell;
use crate::geometry::{adjacent, Coord};
use crate::maze::Maze;

verus! {

/// `p` is a non-empty walk over space cells of `m`, each step cardinal.
pub open spec fn is_space_path(m: Maze, p: Seq<Coord>) -> bool {
    &&& p.len() >= 1
    &&& forall|i: int| 0 <= i < p.len() ==> m.spec_is_space(#[trigger] p[i])
    &&& forall|i: int| 0 <= i < p.len() - 1 ==> adjacent(#[trigger] p[i], p[i + 1])
}

/// A walk over space cells of `m` leads from `a` to `b`.
pub open spec fn reachable(m: Maze, a: Coord, b: Coord) -> bool {
    exists|p: Seq<Coord>| #[trigger] is_space_path(m, p) && p.first() == a && p.last() == b
}

/// Every space cell of `m` is reachable from the start.
pub open spec fn connected(m: Maze) -> bool {
    forall|c: Coord| #[trigger] m.spec_is_space(c) ==> reachable(m, m.start, c)
}

/// A space cell reaches itself.
pub proof fn lemma_reachable_refl(m: Maze, a: Coord)
    requires
        m.spec_is_space(a),
    ensures
        reachable(m, a, a),
{
    let p = seq![a];
    assert(is_space_path(m, p));
    assert(p.first() == a && p.last() == a);
}

/// Reachability extends by one step onto an adjacent space cell.
pub proof fn lemma_reachable_step(m: Maze, a: Coord, b: Coord, c: Coord)
    requires
        reachable(m, a, b),
        adjacent(b, c),
        m.spec_is_space(c),
    ensures
        reachable(m, a, c),
{
    let p = choose|p: Seq<Coord>| #[trigger] is_space_path(m, p) && p.first() == a && p.last()
        == b;
    let q = p.push(c);
    assert(is_space_path(m, q)) by {
        assert forall|i: int| 0 <= i < q.len() implies m.spec_is_space(#[trigger] q[i]) by {
            if i < p.len() {
                assert(q[i] == p[i]);
            } else {
                assert(q[i] == c);
            }
        }
        assert forall|i: int| 0 <= i < q.len() - 1 implies adjacent(#[trigger] q[i], q[i + 1]) by {
            if i < p.len() - 1 {
                assert(q[i] == p[i] && q[i + 1] == p[i + 1]);
            } else {
                assert(q[i] == p.last() && q[i + 1] == c);
            }
        }
    }
    assert(q.first() == a && q.last() == c);
}

/// Opening more space never severs a connection.
pub proof fn lemma_reachable_mono(m1: Maze, m2: Maze, a: Coord, b: Coord)
    requires
        forall|c: Coord| #[trigger] m1.spec_is_space(c) ==> m2.spec_is_space(c),
        reachable(m1, a, b),
    ensures
        reachable(m2, a, b),
{
    let p = choose|p: Seq<Coord>| #[trigger] is_space_path(m1, p) && p.first() == a && p.last()
        == b;
    assert(is_space_path(m2, p)) by {
        assert forall|i: int| 0 <= i < p.len() implies m2.spec_is_space(#[trigger] p[i]) by {
            assert(m1.spec_is_space(p[i]));
        }
    }
}

/// Carving one wall cell that touches the connected open region keeps the
/// whole region connected.
pub proof fn lemma_connected_after_carve(pre: Maze, post: Maze, c: Coord, d: Coord)
    requires
        pre.wf(),
        post.wf(),
        post.width == pre.width,
        post.height == pre.height,
        post.start == pre.start,
        pre.spec_in_bounds(c),
        post.cell_at(c) == Cell::spec_space_cell(),
        forall|e: Coord| pre.spec_in_bounds(e) && e != c ==> post.cell_at(e) == pre.cell_at(e),
        connected(pre),
        pre.spec_is_space(d),
        adjacent(d, c),
    ensures
        connected(post),
        forall|e: Coord| #[trigger] pre.spec_is_space(e) ==> post.spec_is_space(e),
        post.spec_is_space(c),
{
    assert forall|e: Coord| #[trigger] pre.spec_is_space(e) implies post.spec_is_space(e) by {
        if e != c {
            assert(post.cell_at(e) == pre.cell_at(e));
        }
    }
    assert(post.spec_is_space(c));
    assert forall|e: Coord| #[trigger] post.spec_is_space(e) implies reachable(
        post,
        post.start,
        e,
    ) by {
        if e == c {
            assert(reachable(pre, pre.start, d));
            lemma_reachable_mono(pre, post, pre.start, d);
            lemma_reachable_step(post, post.start, d, c);
        } else {
            assert(post.cell_at(e) == pre.cell_at(e));
            assert(pre.spec_is_space(e));
            lemma_reachable_mono(pre, post, pre.start, e);
        }
    }
}

/// Carving the very first space cell of an all-wall grid leaves exactly that
/// cell open and connected to itself.
pub proof fn lemma_connected_after_first_carve(pre: Maze, post: Maze, c: Coord)
    requires
        pre.wf(),
        post.wf(),
        post.width == pre.width,
        post.height == pre.height,
        pre.spec_in_bounds(c),
        post.start == c,
        post.cell_at(c) == Cell::spec_space_cell(),
        forall|e: Coord| pre.spec_in_bounds(e) && e != c ==> post.cell_at(e) == pre.cell_at(e),
        forall|e: Coord| !(#[trigger] pre.spec_is_space(e)),
    ensures
        connected(post),
        post.spec_is_space(c),
        forall|e: Coord| #[trigger] post.spec_is_space(e) ==> e == c,
{
    assert forall|e: Coord| #[trigger] post.spec_is_space(e) implies e == c by {
        if e != c {
            assert(post.cell_at(e) == pre.cell_at(e));
            assert(pre.spec_is_space(e));
        }
    }
    assert forall|e: Coord| #[trigger] post.spec_is_space(e) implies reachable(
        post,
        post.start,
        e,
    ) by {
        lemma_reachable_refl(post, c);
    }
}

} // verus!
