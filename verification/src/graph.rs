//! The graph store: labeled, positioned vertices and directed edges held
//! as adjacency lists. An edge `s -> t` is recorded twice: as an outgoing
//! entry `t` on the source `s` and as a mirrored incoming back-reference
//! `s` on the target `t`. The back-reference never owns anything; it exists
//! so that deleting a vertex can repair every neighbor's lists.
//!
//! Vertices are referred to by their index in insertion order. Removing a
//! vertex compacts the store, so every stored index above the removed one
//! is decremented in the same operation; `graph_wf` is preserved by every
//! public operation.

use vstd::prelude::*;
use crate::geometry::Point;

verus! {

/// Mathematical model of one vertex: its label as a character sequence,
/// its position, and its adjacency lists as sequences of vertex indices.
pub ghost struct VertexModel {
    pub label: Seq<char>,
    pub pos: Point,
    pub outs: Seq<int>,
    pub ins: Seq<int>,
}

/// One vertex of the graph.
pub struct Vertex {
    pub label: String,
    pub pos: Point,
    /// Indices of the targets of this vertex's outgoing edges, in creation order.
    pub outs: Vec<usize>,
    /// Indices of the sources of this vertex's incoming edges, in creation order.
    pub ins: Vec<usize>,
}

impl View for Vertex {
    type V = VertexModel;

    open spec fn view(&self) -> VertexModel {
        VertexModel {
            label: self.label@,
            pos: self.pos,
            outs: self.outs@.map_values(|u: usize| u as int),
            ins: self.ins@.map_values(|u: usize| u as int),
        }
    }
}

/// The graph: an ordered collection of vertices, edges embedded in their
/// adjacency lists.
pub struct Graph {
    pub vertices: Vec<Vertex>,
}

impl View for Graph {
    type V = Seq<VertexModel>;

    open spec fn view(&self) -> Seq<VertexModel> {
        self.vertices@.map_values(|v: Vertex| v@)
    }
}

/// No value occurs twice in `s`.
pub open spec fn no_dups(s: Seq<int>) -> bool {
    forall|k1: int, k2: int| 0 <= k1 < k2 < s.len() ==> s[k1] != s[k2]
}

/// Every value of `s` is a valid index below `n`.
pub open spec fn all_in_range(s: Seq<int>, n: int) -> bool {
    forall|k: int| 0 <= k < s.len() ==> 0 <= #[trigger] s[k] < n
}

/// The per-vertex part of well-formedness: adjacency lists hold valid,
/// distinct indices and the position lies within the coordinate bound.
pub open spec fn vertex_wf(m: VertexModel, n: int) -> bool {
    &&& all_in_range(m.outs, n)
    &&& all_in_range(m.ins, n)
    &&& no_dups(m.outs)
    &&& no_dups(m.ins)
    &&& m.pos.in_bounds()
}

/// The mirror invariant: `t` is an outgoing target of `s` exactly when `s`
/// is an incoming source of `t`. Together with `no_dups` this makes the
/// correspondence between an edge and its back-reference one-to-one.
pub open spec fn mirrored(g: Seq<VertexModel>) -> bool {
    forall|i: int, j: int|
        0 <= i < g.len() && 0 <= j < g.len()
            ==> (#[trigger] g[i].outs.contains(j) <==> #[trigger] g[j].ins.contains(i))
}

/// Well-formedness of the whole graph.
pub open spec fn graph_wf(g: Seq<VertexModel>) -> bool {
    &&& forall|i: int| 0 <= i < g.len() ==> vertex_wf(#[trigger] g[i], g.len() as int)
    &&& mirrored(g)
}

/// What `add_vertex` does to the model: appends a vertex with no edges.
pub open spec fn spec_add_vertex(g: Seq<VertexModel>, label: Seq<char>, pos: Point) -> Seq<
    VertexModel,
> {
    g.push(VertexModel { label, pos, outs: Seq::empty(), ins: Seq::empty() })
}

/// Membership in a pushed sequence.
pub proof fn lemma_push_contains(s: Seq<int>, x: int, y: int)
    ensures
        s.push(x).contains(y) <==> (s.contains(y) || y == x),
{
    if s.contains(y) {
        let i = choose|i: int| 0 <= i < s.len() && s[i] == y;
        assert(s.push(x)[i] == y);
    }
    if y == x {
        assert(s.push(x)[s.len() as int] == y);
    }
    if s.push(x).contains(y) && y != x {
        let i = choose|i: int| 0 <= i < s.push(x).len() && s.push(x)[i] == y;
        assert(s[i] == y);
    }
}

/// A sequence whose values all lie below `n` cannot contain `n` or anything above.
pub proof fn lemma_range_excludes(s: Seq<int>, n: int, x: int)
    requires
        all_in_range(s, n),
        x >= n,
    ensures
        !s.contains(x),
{
    if s.contains(x) {
        let i = choose|i: int| 0 <= i < s.len() && s[i] == x;
        assert(0 <= s[i] < n);
    }
}

/// Appending an edgeless vertex preserves well-formedness.
pub proof fn lemma_add_vertex_wf(g: Seq<VertexModel>, label: Seq<char>, pos: Point)
    requires
        graph_wf(g),
        pos.in_bounds(),
    ensures
        graph_wf(spec_add_vertex(g, label, pos)),
{
    let g2 = spec_add_vertex(g, label, pos);
    let n = g.len() as int;
    assert forall|i: int| 0 <= i < g2.len() implies vertex_wf(#[trigger] g2[i], n + 1) by {
        if i < n {
            assert(vertex_wf(g[i], n));
        }
    }
    assert forall|i: int, j: int| 0 <= i < g2.len() && 0 <= j < g2.len() implies (#[trigger] g2[i].outs.contains(
        j,
    ) <==> #[trigger] g2[j].ins.contains(i)) by {
        if i < n && j < n {
            assert(g[i].outs.contains(j) <==> g[j].ins.contains(i));
        } else if i == n && j < n {
            assert(!g2[i].outs.contains(j));
            lemma_range_excludes(g[j].ins, n, i);
        } else if i < n && j == n {
            assert(!g2[j].ins.contains(i));
            lemma_range_excludes(g[i].outs, n, j);
        } else {
            assert(!g2[i].outs.contains(j));
            assert(!g2[j].ins.contains(i));
        }
    }
}

/// When `add_edge` actually inserts: both endpoints exist, the edge is no
/// self-loop, and no edge `s -> t` exists yet.
pub open spec fn can_add_edge(g: Seq<VertexModel>, s: int, t: int) -> bool {
    &&& 0 <= s < g.len()
    &&& 0 <= t < g.len()
    &&& s != t
    &&& !g[s].outs.contains(t)
}

/// What `add_edge` does to the model when it inserts: `t` is appended to
/// the source's outgoing list and `s` to the target's incoming list.
pub open spec fn spec_add_edge(g: Seq<VertexModel>, s: int, t: int) -> Seq<VertexModel> {
    let g1 = g.update(s, VertexModel { outs: g[s].outs.push(t), ..g[s] });
    g1.update(t, VertexModel { ins: g1[t].ins.push(s), ..g1[t] })
}

/// Inserting a fresh, non-loop edge preserves well-formedness.
pub proof fn lemma_add_edge_wf(g: Seq<VertexModel>, s: int, t: int)
    requires
        graph_wf(g),
        can_add_edge(g, s, t),
    ensures
        graph_wf(spec_add_edge(g, s, t)),
{
    let g2 = spec_add_edge(g, s, t);
    let n = g.len() as int;
    // The mirror of the absent edge is absent too, so both pushes are fresh.
    assert(g[s].outs.contains(t) <==> g[t].ins.contains(s));
    assert forall|i: int| 0 <= i < g2.len() implies vertex_wf(#[trigger] g2[i], n) by {
        assert(vertex_wf(g[i], n));
        if i == s {
            assert(g2[s].outs == g[s].outs.push(t));
            assert forall|k: int| 0 <= k < g2[s].outs.len() implies 0 <= #[trigger] g2[s].outs[k]
                < n by {
                if k < g[s].outs.len() {
                    assert(g[s].outs[k] == g2[s].outs[k]);
                }
            }
            assert forall|k1: int, k2: int| 0 <= k1 < k2 < g2[s].outs.len() implies g2[s].outs[k1]
                != g2[s].outs[k2] by {
                if k2 == g[s].outs.len() {
                    assert(g[s].outs.contains(g[s].outs[k1]));
                }
            }
        }
        if i == t {
            assert(g2[t].ins == g[t].ins.push(s));
            assert forall|k: int| 0 <= k < g2[t].ins.len() implies 0 <= #[trigger] g2[t].ins[k]
                < n by {
                if k < g[t].ins.len() {
                    assert(g[t].ins[k] == g2[t].ins[k]);
                }
            }
            assert forall|k1: int, k2: int| 0 <= k1 < k2 < g2[t].ins.len() implies g2[t].ins[k1]
                != g2[t].ins[k2] by {
                if k2 == g[t].ins.len() {
                    assert(g[t].ins.contains(g[t].ins[k1]));
                }
            }
        }
    }
    assert forall|i: int, j: int| 0 <= i < g2.len() && 0 <= j < g2.len() implies (#[trigger] g2[i].outs.contains(
        j,
    ) <==> #[trigger] g2[j].ins.contains(i)) by {
        lemma_push_contains(g[s].outs, t, j);
        lemma_push_contains(g[t].ins, s, i);
        assert(g[i].outs.contains(j) <==> g[j].ins.contains(i));
        if i == s && j == t {
        } else if i == s {
            assert(g2[i].outs.contains(j) <==> (g[s].outs.contains(j) || j == t));
            assert(g2[j].ins == g[j].ins);
        } else if j == t {
            assert(g2[j].ins.contains(i) <==> (g[t].ins.contains(i) || i == s));
            assert(g2[i].outs == g[i].outs);
        } else {
            assert(g2[i].outs == g[i].outs);
            assert(g2[j].ins == g[j].ins);
        }
    }
}

/// Membership in a sequence of distinct values after removing index `k`:
/// exactly the old members other than the removed one.
pub proof fn lemma_remove_at_contains(s: Seq<int>, k: int, y: int)
    requires
        no_dups(s),
        0 <= k < s.len(),
    ensures
        s.remove(k).contains(y) <==> (s.contains(y) && y != s[k]),
{
    s.remove_ensures(k);
    if s.remove(k).contains(y) {
        let i = choose|i: int| 0 <= i < s.remove(k).len() && s.remove(k)[i] == y;
        if i < k {
            assert(s[i] == y);
        } else {
            assert(s[i + 1] == y);
        }
    }
    if s.contains(y) && y != s[k] {
        let i = choose|i: int| 0 <= i < s.len() && s[i] == y;
        if i < k {
            assert(s.remove(k)[i] == y);
        } else {
            assert(i != k);
            assert(s.remove(k)[i - 1] == y);
        }
    }
}

/// Removing an index keeps the values distinct and in range.
pub proof fn lemma_remove_at_wf(s: Seq<int>, k: int, n: int)
    requires
        0 <= k < s.len(),
    ensures
        no_dups(s) ==> no_dups(s.remove(k)),
        all_in_range(s, n) ==> all_in_range(s.remove(k), n),
{
    s.remove_ensures(k);
    let r = s.remove(k);
    if no_dups(s) {
        assert forall|k1: int, k2: int| 0 <= k1 < k2 < r.len() implies r[k1] != r[k2] by {
            let o1: int = if k1 < k { k1 } else { k1 + 1 };
            let o2: int = if k2 < k { k2 } else { k2 + 1 };
            assert(r[k1] == s[o1]);
            assert(r[k2] == s[o2]);
        }
    }
    if all_in_range(s, n) {
        assert forall|i: int| 0 <= i < r.len() implies 0 <= #[trigger] r[i] < n by {
            let o: int = if i < k { i } else { i + 1 };
            assert(r[i] == s[o]);
        }
    }
}

/// When `remove_edge` actually removes: the source exists and `k` indexes
/// its outgoing list.
pub open spec fn can_remove_edge(g: Seq<VertexModel>, s: int, k: int) -> bool {
    &&& 0 <= s < g.len()
    &&& 0 <= k < g[s].outs.len()
}

/// What `remove_edge` does to the model: the outgoing entry at `k` leaves
/// the source's list and the mirrored back-reference leaves the target's
/// incoming list.
pub open spec fn spec_remove_edge(g: Seq<VertexModel>, s: int, k: int) -> Seq<VertexModel> {
    let t = g[s].outs[k];
    let g1 = g.update(s, VertexModel { outs: g[s].outs.remove(k), ..g[s] });
    g1.update(t, VertexModel { ins: g1[t].ins.remove_value(s), ..g1[t] })
}

/// Removing an edge together with its back-reference preserves
/// well-formedness.
pub proof fn lemma_remove_edge_wf(g: Seq<VertexModel>, s: int, k: int)
    requires
        graph_wf(g),
        can_remove_edge(g, s, k),
    ensures
        graph_wf(spec_remove_edge(g, s, k)),
{
    let t = g[s].outs[k];
    let n = g.len() as int;
    let g2 = spec_remove_edge(g, s, k);
    assert(g[s].outs.contains(t));
    assert(0 <= t < n);
    assert(g[t].ins.contains(s));
    g[t].ins.index_of_first_ensures(s);
    let jf = g[t].ins.index_of_first(s).unwrap();
    assert(g2[t].ins == g[t].ins.remove(jf));
    assert(g2[s].outs == g[s].outs.remove(k));
    // the removed target is unique in the outgoing list, and the removed
    // back-reference unique in the incoming list
    assert forall|y: int| #[trigger] g2[s].outs.contains(y) <==> (g[s].outs.contains(y) && y != t) by {
        lemma_remove_at_contains(g[s].outs, k, y);
    }
    assert forall|y: int| #[trigger] g2[t].ins.contains(y) <==> (g[t].ins.contains(y) && y != s) by {
        lemma_remove_at_contains(g[t].ins, jf, y);
        assert(g[t].ins[jf] == s);
    }
    assert forall|i: int| 0 <= i < g2.len() implies vertex_wf(#[trigger] g2[i], n) by {
        assert(vertex_wf(g[i], n));
        if i == s {
            lemma_remove_at_wf(g[s].outs, k, n);
        }
        if i == t {
            lemma_remove_at_wf(g[t].ins, jf, n);
        }
    }
    assert forall|i: int, j: int| 0 <= i < n && 0 <= j < n implies (#[trigger] g2[i].outs.contains(
        j,
    ) <==> #[trigger] g2[j].ins.contains(i)) by {
        assert(g[i].outs.contains(j) <==> g[j].ins.contains(i));
        if i == s && j == t {
            assert(!g2[s].outs.contains(t));
            assert(!g2[t].ins.contains(s));
        } else if i == s {
            assert(g2[j].ins == g[j].ins);
        } else if j == t {
            assert(g2[i].outs == g[i].outs);
        } else {
            assert(g2[i].outs == g[i].outs);
            assert(g2[j].ins == g[j].ins);
        }
    }
}

/// Renumbering after vertex `v` disappears: indices above `v` slide down.
pub open spec fn shift_down(e: int, v: int) -> int {
    if e > v {
        e - 1
    } else {
        e
    }
}

/// The inverse renumbering: the old index that a new index `y` stood at
/// before vertex `v` was removed.
pub open spec fn unshift(y: int, v: int) -> int {
    if y >= v {
        y + 1
    } else {
        y
    }
}

/// An adjacency list after vertex `v` is removed: every reference to `v`
/// disappears and every index above `v` slides down.
pub open spec fn purge(s: Seq<int>, v: int) -> Seq<int>
    decreases s.len(),
{
    if s.len() == 0 {
        s
    } else {
        let rest = purge(s.drop_first(), v);
        if s[0] == v {
            rest
        } else {
            seq![shift_down(s[0], v)] + rest
        }
    }
}

/// Membership under cons.
proof fn lemma_cons_contains(a: int, s: Seq<int>, y: int)
    ensures
        (seq![a] + s).contains(y) <==> (y == a || s.contains(y)),
{
    let c = seq![a] + s;
    if c.contains(y) {
        let i = choose|i: int| 0 <= i < c.len() && c[i] == y;
        if i > 0 {
            assert(s[i - 1] == y);
        }
    }
    if y == a {
        assert(c[0] == y);
    }
    if s.contains(y) {
        let i = choose|i: int| 0 <= i < s.len() && s[i] == y;
        assert(c[i + 1] == y);
    }
}

/// Membership at the head or in the tail.
proof fn lemma_head_tail_contains(s: Seq<int>, y: int)
    requires
        s.len() > 0,
    ensures
        s.contains(y) <==> (s[0] == y || s.drop_first().contains(y)),
{
    if s.contains(y) {
        let i = choose|i: int| 0 <= i < s.len() && s[i] == y;
        if i > 0 {
            assert(s.drop_first()[i - 1] == y);
        }
    }
    if s.drop_first().contains(y) {
        let i = choose|i: int| 0 <= i < s.drop_first().len() && s.drop_first()[i] == y;
        assert(s[i + 1] == y);
    }
}

/// What a purged list contains: exactly the renumbered old members other
/// than the removed vertex.
pub proof fn lemma_purge_contains(s: Seq<int>, v: int, y: int)
    ensures
        purge(s, v).contains(y) <==> s.contains(unshift(y, v)),
    decreases s.len(),
{
    if s.len() == 0 {
    } else {
        lemma_purge_contains(s.drop_first(), v, y);
        lemma_head_tail_contains(s, unshift(y, v));
        if s[0] != v {
            lemma_cons_contains(shift_down(s[0], v), purge(s.drop_first(), v), y);
        }
    }
}

/// Purging keeps values distinct: the renumbering is injective on values
/// other than the removed one.
pub proof fn lemma_purge_no_dups(s: Seq<int>, v: int)
    requires
        no_dups(s),
    ensures
        no_dups(purge(s, v)),
    decreases s.len(),
{
    if s.len() == 0 {
    } else {
        let tail = s.drop_first();
        assert forall|k1: int, k2: int| 0 <= k1 < k2 < tail.len() implies tail[k1] != tail[k2] by {
            assert(s[k1 + 1] != s[k2 + 1]);
        }
        lemma_purge_no_dups(tail, v);
        if s[0] != v {
            let a = shift_down(s[0], v);
            assert(unshift(a, v) == s[0]);
            lemma_purge_contains(tail, v, a);
            if tail.contains(s[0]) {
                let i = choose|i: int| 0 <= i < tail.len() && tail[i] == s[0];
                assert(s[i + 1] == s[0]);
            }
            assert(!purge(tail, v).contains(a));
            let p = seq![a] + purge(tail, v);
            assert forall|k1: int, k2: int| 0 <= k1 < k2 < p.len() implies p[k1] != p[k2] by {
                if k1 == 0 {
                    assert(purge(tail, v).contains(p[k2])) by {
                        assert(p[k2] == purge(tail, v)[k2 - 1]);
                    }
                } else {
                    assert(purge(tail, v)[k1 - 1] != purge(tail, v)[k2 - 1]);
                }
            }
        }
    }
}

/// Purged values stay valid indices for the smaller graph.
pub proof fn lemma_purge_range(s: Seq<int>, v: int, n: int)
    requires
        all_in_range(s, n),
        0 <= v < n,
    ensures
        all_in_range(purge(s, v), n - 1),
    decreases s.len(),
{
    if s.len() == 0 {
    } else {
        let tail = s.drop_first();
        assert forall|k: int| 0 <= k < tail.len() implies 0 <= #[trigger] tail[k] < n by {
            assert(s[k + 1] == tail[k]);
        }
        lemma_purge_range(tail, v, n);
        if s[0] != v {
            let p = seq![shift_down(s[0], v)] + purge(tail, v);
            assert(0 <= s[0] < n);
            assert forall|k: int| 0 <= k < p.len() implies 0 <= #[trigger] p[k] < n - 1 by {
                if k > 0 {
                    assert(p[k] == purge(tail, v)[k - 1]);
                }
            }
        }
    }
}

/// Purging commutes with appending one element.
proof fn lemma_purge_push(s: Seq<int>, v: int, e: int)
    ensures
        purge(s.push(e), v) == if e == v {
            purge(s, v)
        } else {
            purge(s, v) + seq![shift_down(e, v)]
        },
    decreases s.len(),
{
    if s.len() == 0 {
        assert(s =~= Seq::<int>::empty());
        assert(s.push(e).drop_first() =~= s);
        if e != v {
            assert(seq![shift_down(e, v)] + s =~= s + seq![shift_down(e, v)]);
        }
    } else {
        assert(s.push(e).drop_first() =~= s.drop_first().push(e));
        lemma_purge_push(s.drop_first(), v, e);
        if e != v && s[0] != v {
            assert(seq![shift_down(s[0], v)] + (purge(s.drop_first(), v) + seq![shift_down(e, v)])
                =~= (seq![shift_down(s[0], v)] + purge(s.drop_first(), v)) + seq![
                shift_down(e, v),
            ]);
        }
    }
}

/// What `remove_vertex` does to the model: vertex `v` leaves the sequence,
/// every remaining adjacency list is purged of `v`, and all stored indices
/// are renumbered to the compacted order.
pub open spec fn spec_remove_vertex(g: Seq<VertexModel>, v: int) -> Seq<VertexModel> {
    Seq::new((g.len() - 1) as nat, |i: int| {
        let o = unshift(i, v);
        VertexModel {
            label: g[o].label,
            pos: g[o].pos,
            outs: purge(g[o].outs, v),
            ins: purge(g[o].ins, v),
        }
    })
}

/// Cascade deletion preserves well-formedness: no dangling reference to
/// the removed vertex survives and the mirror correspondence is kept.
pub proof fn lemma_remove_vertex_wf(g: Seq<VertexModel>, v: int)
    requires
        graph_wf(g),
        0 <= v < g.len(),
    ensures
        graph_wf(spec_remove_vertex(g, v)),
{
    let g2 = spec_remove_vertex(g, v);
    let n = g.len() as int;
    assert forall|i: int| 0 <= i < g2.len() implies vertex_wf(#[trigger] g2[i], n - 1) by {
        let o = unshift(i, v);
        assert(vertex_wf(g[o], n));
        lemma_purge_range(g[o].outs, v, n);
        lemma_purge_range(g[o].ins, v, n);
        lemma_purge_no_dups(g[o].outs, v);
        lemma_purge_no_dups(g[o].ins, v);
    }
    assert forall|i: int, j: int| 0 <= i < g2.len() && 0 <= j < g2.len() implies (
    #[trigger] g2[i].outs.contains(j) <==> #[trigger] g2[j].ins.contains(i)) by {
        let oi = unshift(i, v);
        let oj = unshift(j, v);
        lemma_purge_contains(g[oi].outs, v, j);
        lemma_purge_contains(g[oj].ins, v, i);
        assert(g[oi].outs.contains(oj) <==> g[oj].ins.contains(oi));
    }
}

/// Purges one adjacency list: drops `v`, renumbers indices above it.
fn purge_vec(src: &Vec<usize>, v: usize) -> (r: Vec<usize>)
    ensures
        r@.map_values(|u: usize| u as int) == purge(
            src@.map_values(|u: usize| u as int),
            v as int,
        ),
{
    let ghost ms = src@.map_values(|u: usize| u as int);
    let mut out: Vec<usize> = Vec::new();
    let mut k: usize = 0;
    proof {
        assert(ms.take(0) =~= Seq::<int>::empty());
        assert(out@.map_values(|u: usize| u as int) =~= purge(ms.take(0), v as int));
    }
    while k < src.len()
        invariant
            k <= src@.len(),
            ms == src@.map_values(|u: usize| u as int),
            out@.map_values(|u: usize| u as int) == purge(ms.take(k as int), v as int),
        decreases src@.len() - k,
    {
        let e = src[k];
        let ghost prev = out@;
        if e > v {
            out.push(e - 1);
        } else if e < v {
            out.push(e);
        }
        proof {
            assert(ms.take(k + 1) =~= ms.take(k as int).push(e as int));
            lemma_purge_push(ms.take(k as int), v as int, e as int);
            if e != v {
                assert(out@ =~= prev.push(if e > v {
                    (e - 1) as usize
                } else {
                    e
                }));
                assert(out@.map_values(|u: usize| u as int) =~= prev.map_values(
                    |u: usize| u as int,
                ) + seq![shift_down(e as int, v as int)]);
            }
        }
        k += 1;
    }
    proof {
        assert(ms.take(src@.len() as int) =~= ms);
    }
    out
}

/// What `set_position` does to the model: only the position of vertex `v`
/// changes.
pub open spec fn spec_set_position(g: Seq<VertexModel>, v: int, p: Point) -> Seq<VertexModel> {
    g.update(v, VertexModel { pos: p, ..g[v] })
}

/// What `set_label` does to the model: only the label of vertex `v`
/// changes.
pub open spec fn spec_set_label(g: Seq<VertexModel>, v: int, label: Seq<char>) -> Seq<
    VertexModel,
> {
    g.update(v, VertexModel { label, ..g[v] })
}

/// Changing a vertex's position or label leaves every adjacency list as it
/// was, so well-formedness is preserved.
pub proof fn lemma_update_payload_wf(g: Seq<VertexModel>, g2: Seq<VertexModel>)
    requires
        graph_wf(g),
        g2.len() == g.len(),
        forall|i: int| 0 <= i < g.len() ==> #[trigger] g2[i].outs == g[i].outs,
        forall|i: int| 0 <= i < g.len() ==> #[trigger] g2[i].ins == g[i].ins,
        forall|i: int| 0 <= i < g.len() ==> (#[trigger] g2[i].pos).in_bounds(),
    ensures
        graph_wf(g2),
{
    assert forall|i: int| 0 <= i < g2.len() implies vertex_wf(#[trigger] g2[i], g2.len() as int) by {
        assert(vertex_wf(g[i], g.len() as int));
    }
    assert forall|i: int, j: int| 0 <= i < g2.len() && 0 <= j < g2.len() implies (
    #[trigger] g2[i].outs.contains(j) <==> #[trigger] g2[j].ins.contains(i)) by {
        assert(g[i].outs.contains(j) <==> g[j].ins.contains(i));
    }
}

/// How many times `x` occurs in `s`.
pub open spec fn count_of(s: Seq<int>, x: int) -> nat
    decreases s.len(),
{
    if s.len() == 0 {
        0
    } else {
        (if s[0] == x {
            1nat
        } else {
            0nat
        }) + count_of(s.drop_first(), x)
    }
}

/// In a sequence of distinct values, a member occurs exactly once and a
/// non-member not at all.
pub proof fn lemma_count_of_distinct(s: Seq<int>, x: int)
    requires
        no_dups(s),
    ensures
        s.contains(x) ==> count_of(s, x) == 1,
        !s.contains(x) ==> count_of(s, x) == 0,
    decreases s.len(),
{
    if s.len() > 0 {
        let tail = s.drop_first();
        assert forall|k1: int, k2: int| 0 <= k1 < k2 < tail.len() implies tail[k1] != tail[k2] by {
            assert(s[k1 + 1] != s[k2 + 1]);
        }
        lemma_count_of_distinct(tail, x);
        lemma_head_tail_contains(s, x);
        if s[0] == x && tail.contains(x) {
            let i = choose|i: int| 0 <= i < tail.len() && tail[i] == x;
            assert(s[i + 1] == s[0]);
        }
    }
}

/// Law: mirrored edges. In a well-formed graph, for every vertex `i` and
/// every outgoing edge `i -> t`, the target's incoming list holds exactly
/// one back-reference to `i`, and the correspondence is one-to-one: where
/// the edge is absent, so is any back-reference.
pub proof fn lemma_mirrored_edges(g: Seq<VertexModel>, i: int, t: int)
    requires
        graph_wf(g),
        0 <= i < g.len(),
        0 <= t < g.len(),
    ensures
        g[i].outs.contains(t) ==> count_of(g[i].outs, t) == 1 && count_of(g[t].ins, i) == 1,
        !g[i].outs.contains(t) ==> count_of(g[i].outs, t) == 0 && count_of(g[t].ins, i) == 0,
{
    assert(g[i].outs.contains(t) <==> g[t].ins.contains(i));
    assert(vertex_wf(g[i], g.len() as int));
    assert(vertex_wf(g[t], g.len() as int));
    lemma_count_of_distinct(g[i].outs, t);
    lemma_count_of_distinct(g[t].ins, i);
}

/// Law: no duplicate edges. In a well-formed graph no vertex's outgoing
/// list repeats a target, so any sequence of `add_edge` calls (each of
/// which preserves well-formedness) leaves every outgoing list free of
/// repeats.
pub proof fn lemma_no_duplicate_edges(g: Seq<VertexModel>, i: int)
    requires
        graph_wf(g),
        0 <= i < g.len(),
    ensures
        no_dups(g[i].outs),
        forall|k1: int, k2: int|
            0 <= k1 < k2 < g[i].outs.len() ==> g[i].outs[k1] != g[i].outs[k2],
{
    assert(vertex_wf(g[i], g.len() as int));
}

/// Law: cascade delete. Removing vertex `v` removes every edge where `v`
/// is source or target; the surviving edges are exactly the old edges not
/// touching `v`, renumbered to the compacted order, and every surviving
/// list holds only valid indices — no dangling reference remains.
pub proof fn lemma_cascade_delete(g: Seq<VertexModel>, v: int)
    requires
        graph_wf(g),
        0 <= v < g.len(),
    ensures
        spec_remove_vertex(g, v).len() == g.len() - 1,
        graph_wf(spec_remove_vertex(g, v)),
        forall|i: int, j: int|
            0 <= i < g.len() - 1 && 0 <= j < g.len() - 1 ==> (#[trigger] spec_remove_vertex(
                g,
                v,
            )[i].outs.contains(j) <==> g[unshift(i, v)].outs.contains(unshift(j, v))),
        forall|i: int, j: int|
            0 <= i < g.len() - 1 && 0 <= j < g.len() - 1 ==> (#[trigger] spec_remove_vertex(
                g,
                v,
            )[i].ins.contains(j) <==> g[unshift(i, v)].ins.contains(unshift(j, v))),
{
    let g2 = spec_remove_vertex(g, v);
    lemma_remove_vertex_wf(g, v);
    assert forall|i: int, j: int| 0 <= i < g.len() - 1 && 0 <= j < g.len() - 1 implies (
    #[trigger] g2[i].outs.contains(j) <==> g[unshift(i, v)].outs.contains(unshift(j, v))) by {
        lemma_purge_contains(g[unshift(i, v)].outs, v, j);
    }
    assert forall|i: int, j: int| 0 <= i < g.len() - 1 && 0 <= j < g.len() - 1 implies (
    #[trigger] g2[i].ins.contains(j) <==> g[unshift(i, v)].ins.contains(unshift(j, v))) by {
        lemma_purge_contains(g[unshift(i, v)].ins, v, j);
    }
}

impl Graph {
    /// An empty graph.
    pub fn new() -> (g: Graph)
        ensures
            g@ == Seq::<VertexModel>::empty(),
            graph_wf(g@),
    {
        let g = Graph { vertices: Vec::new() };
        proof {
            assert(g@ =~= Seq::<VertexModel>::empty());
        }
        g
    }

    /// The number of vertices.
    pub fn vertex_count(&self) -> (n: usize)
        ensures
            n == self@.len(),
    {
        self.vertices.len()
    }

    /// Appends a new vertex with the given label and position; always
    /// succeeds and returns the new vertex's index.
    pub fn add_vertex(&mut self, label: String, pos: Point) -> (idx: usize)
        requires
            graph_wf(old(self)@),
            pos.in_bounds(),
        ensures
            final(self)@ == spec_add_vertex(old(self)@, label@, pos),
            graph_wf(final(self)@),
            idx == old(self)@.len(),
    {
        let idx = self.vertices.len();
        let v = Vertex { label, pos, outs: Vec::new(), ins: Vec::new() };
        proof {
            assert(v@.outs =~= Seq::<int>::empty());
            assert(v@.ins =~= Seq::<int>::empty());
        }
        let ghost lab = v.label@;
        self.vertices.push(v);
        proof {
            assert(self@ =~= spec_add_vertex(old(self)@, lab, pos));
            lemma_add_vertex_wf(old(self)@, lab, pos);
        }
        idx
    }

    /// Whether an edge `s -> t` is already recorded, by linear scan of the
    /// source's outgoing list.
    pub fn has_edge(&self, s: usize, t: usize) -> (r: bool)
        requires
            s < self@.len(),
        ensures
            r == self@[s as int].outs.contains(t as int),
    {
        let outs = &self.vertices[s].outs;
        let mut k: usize = 0;
        while k < outs.len()
            invariant
                k <= outs.len(),
                outs@ == self.vertices@[s as int].outs@,
                s < self@.len(),
                forall|j: int| 0 <= j < k ==> outs@[j] != t,
            decreases outs.len() - k,
        {
            if outs[k] == t {
                proof {
                    assert(self@[s as int].outs[k as int] == t as int);
                }
                return true;
            }
            k += 1;
        }
        proof {
            if self@[s as int].outs.contains(t as int) {
                let j = choose|j: int|
                    0 <= j < self@[s as int].outs.len() && self@[s as int].outs[j] == t as int;
                assert(outs@[j] != t);
                assert(self@[s as int].outs[j] == outs@[j] as int);
            }
        }
        false
    }

    /// Records the directed edge `s -> t` and its mirrored back-reference.
    /// A request with a missing endpoint, a self-loop (`s == t`, rejected by
    /// policy), or an already existing edge changes nothing.
    pub fn add_edge(&mut self, s: usize, t: usize)
        requires
            graph_wf(old(self)@),
        ensures
            graph_wf(final(self)@),
            can_add_edge(old(self)@, s as int, t as int) ==> final(self)@ == spec_add_edge(
                old(self)@,
                s as int,
                t as int,
            ),
            !can_add_edge(old(self)@, s as int, t as int) ==> final(self)@ == old(self)@,
    {
        let n = self.vertices.len();
        if s >= n || t >= n || s == t {
            return;
        }
        if self.has_edge(s, t) {
            return;
        }
        self.vertices[s].outs.push(t);
        self.vertices[t].ins.push(s);
        proof {
            let g = old(self)@;
            assert(self@[s as int].outs =~= g[s as int].outs.push(t as int));
            assert(self@[t as int].ins =~= g[t as int].ins.push(s as int));
            assert(self@ =~= spec_add_edge(g, s as int, t as int));
            lemma_add_edge_wf(g, s as int, t as int);
        }
    }

    /// Moves vertex `v` to position `p`. An invalid index changes nothing.
    pub fn set_position(&mut self, v: usize, p: Point)
        requires
            graph_wf(old(self)@),
            p.in_bounds(),
        ensures
            graph_wf(final(self)@),
            (v as int) < old(self)@.len() ==> final(self)@ == spec_set_position(
                old(self)@,
                v as int,
                p,
            ),
            (v as int) >= old(self)@.len() ==> final(self)@ == old(self)@,
    {
        if v >= self.vertices.len() {
            return;
        }
        self.vertices[v].pos = p;
        proof {
            let g = old(self)@;
            let g2 = spec_set_position(g, v as int, p);
            assert forall|u: int| 0 <= u < g.len() && u != v implies #[trigger] self@[u] == g[u] by {
                assert(self.vertices@[u] == old(self).vertices@[u]);
            }
            assert(self@[v as int] == g2[v as int]);
            assert(self@ =~= g2);
            lemma_update_payload_wf(g, g2);
        }
    }

    /// Replaces vertex `v`'s label verbatim: empty strings and duplicates
    /// are permitted. An invalid index changes nothing.
    pub fn set_label(&mut self, v: usize, label: String)
        requires
            graph_wf(old(self)@),
        ensures
            graph_wf(final(self)@),
            (v as int) < old(self)@.len() ==> final(self)@ == spec_set_label(
                old(self)@,
                v as int,
                label@,
            ),
            (v as int) >= old(self)@.len() ==> final(self)@ == old(self)@,
    {
        if v >= self.vertices.len() {
            return;
        }
        let ghost lab = label@;
        self.vertices[v].label = label;
        proof {
            let g = old(self)@;
            let g2 = spec_set_label(g, v as int, lab);
            assert forall|u: int| 0 <= u < g.len() && u != v implies #[trigger] self@[u] == g[u] by {
                assert(self.vertices@[u] == old(self).vertices@[u]);
            }
            assert(self@[v as int] == g2[v as int]);
            assert(self@ =~= g2);
            lemma_update_payload_wf(g, g2);
        }
    }

    /// The position of the first occurrence of `x` in `v`, if any.
    fn find_value(v: &Vec<usize>, x: usize) -> (r: Option<usize>)
        ensures
            match r {
                Some(j) => j < v@.len() && v@[j as int] == x && forall|i: int|
                    0 <= i < j ==> v@[i] != x,
                None => forall|i: int| 0 <= i < v@.len() ==> v@[i] != x,
            },
    {
        let mut j: usize = 0;
        while j < v.len()
            invariant
                j <= v@.len(),
                forall|i: int| 0 <= i < j ==> v@[i] != x,
            decreases v@.len() - j,
        {
            if v[j] == x {
                return Some(j);
            }
            j += 1;
        }
        None
    }

    /// Removes the outgoing edge at position `k` of vertex `s`'s outgoing
    /// list, together with its mirrored back-reference on the target. An
    /// invalid vertex or position changes nothing.
    pub fn remove_edge(&mut self, s: usize, k: usize)
        requires
            graph_wf(old(self)@),
        ensures
            graph_wf(final(self)@),
            can_remove_edge(old(self)@, s as int, k as int) ==> final(self)@ == spec_remove_edge(
                old(self)@,
                s as int,
                k as int,
            ),
            !can_remove_edge(old(self)@, s as int, k as int) ==> final(self)@ == old(self)@,
    {
        let ghost g = old(self)@;
        let n = self.vertices.len();
        if s >= n {
            return;
        }
        if k >= self.vertices[s].outs.len() {
            return;
        }
        let t = self.vertices[s].outs[k];
        proof {
            assert(g[s as int].outs[k as int] == t as int);
            assert(g[s as int].outs.contains(t as int));
            assert(vertex_wf(g[s as int], g.len() as int));
            assert(0 <= t < n);
            assert(g[t as int].ins.contains(s as int));
        }
        self.vertices[s].outs.remove(k);
        let ghost g1 = g.update(
            s as int,
            VertexModel { outs: g[s as int].outs.remove(k as int), ..g[s as int] },
        );
        proof {
            assert(self@[s as int].outs =~= g[s as int].outs.remove(k as int));
            assert(self@ =~= g1);
        }
        let r = Self::find_value(&self.vertices[t].ins, s);
        match r {
            Some(j) => {
                self.vertices[t].ins.remove(j);
                proof {
                    let ins = g1[t as int].ins;
                    assert(ins == g[t as int].ins);
                    ins.index_of_first_ensures(s as int);
                    assert(ins.contains(s as int));
                    let jf = ins.index_of_first(s as int).unwrap();
                    // both indices are first occurrences, so they coincide
                    assert(ins[j as int] == s as int);
                    assert forall|i: int| 0 <= i < j implies ins[i] != s as int by {
                        assert(old(self).vertices[t as int].ins@[i] != s);
                    }
                    assert(jf == j as int);
                    assert(self@[t as int].ins =~= ins.remove(j as int));
                    assert(self@ =~= spec_remove_edge(g, s as int, k as int));
                    lemma_remove_edge_wf(g, s as int, k as int);
                }
            },
            None => {
                proof {
                    let ins = g1[t as int].ins;
                    let i = choose|i: int| 0 <= i < ins.len() && ins[i] == s as int;
                    assert(old(self).vertices[t as int].ins@[i] == s);
                    assert(false);
                }
            },
        }
    }

    /// Removes vertex `v` and, in the same operation, every edge where it
    /// is source or target: every other vertex's lists are purged of `v`
    /// and renumbered to the compacted order. An invalid index changes
    /// nothing.
    pub fn remove_vertex(&mut self, v: usize)
        requires
            graph_wf(old(self)@),
        ensures
            graph_wf(final(self)@),
            (v as int) < old(self)@.len() ==> final(self)@ == spec_remove_vertex(
                old(self)@,
                v as int,
            ),
            (v as int) >= old(self)@.len() ==> final(self)@ == old(self)@,
    {
        let ghost g = old(self)@;
        let n = self.vertices.len();
        if v >= n {
            return;
        }
        let mut i: usize = 0;
        while i < n
            invariant
                i <= n,
                n == self.vertices@.len(),
                v < n,
                forall|u: int| 0 <= u < i ==> #[trigger] self@[u] == (VertexModel {
                    label: g[u].label,
                    pos: g[u].pos,
                    outs: purge(g[u].outs, v as int),
                    ins: purge(g[u].ins, v as int),
                }),
                forall|u: int| i <= u < n ==> #[trigger] self@[u] == g[u],
            decreases n - i,
        {
            let ghost pre = self@;
            let ghost pre_vs = self.vertices@;
            let no = purge_vec(&self.vertices[i].outs, v);
            self.vertices[i].outs = no;
            let ni = purge_vec(&self.vertices[i].ins, v);
            self.vertices[i].ins = ni;
            proof {
                assert forall|u: int| 0 <= u < n && u != i implies #[trigger] self@[u] == pre[u] by {
                    assert(self.vertices@[u] == pre_vs[u]);
                    assert(self@[u] == self.vertices@[u]@);
                    assert(pre[u] == pre_vs[u]@);
                }
                assert(self@[i as int] == self.vertices@[i as int]@);
                assert(self.vertices@[i as int].label == pre_vs[i as int].label);
                assert(self.vertices@[i as int].pos == pre_vs[i as int].pos);
                assert(self@[i as int].outs == purge(pre[i as int].outs, v as int));
                assert(self@[i as int].ins == purge(pre[i as int].ins, v as int));
                assert(self@[i as int] == (VertexModel {
                    label: pre[i as int].label,
                    pos: pre[i as int].pos,
                    outs: purge(pre[i as int].outs, v as int),
                    ins: purge(pre[i as int].ins, v as int),
                }));
            }
            i += 1;
        }
        let ghost mid_vs = self.vertices@;
        let ghost mid = self@;
        self.vertices.remove(v);
        proof {
            let g2 = spec_remove_vertex(g, v as int);
            mid_vs.remove_ensures(v as int);
            assert forall|u: int| 0 <= u < g2.len() implies self@[u] == g2[u] by {
                let o = unshift(u, v as int);
                assert(self.vertices@[u] == mid_vs[o]);
                assert(self@[u] == mid[o]);
            }
            assert(self@ =~= g2);
            lemma_remove_vertex_wf(g, v as int);
        }
    }
}

} // verus!
