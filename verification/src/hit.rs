//! The hit-tester: which graph element, if any, lies under a point.
//! Vertices are scanned in storage order and win over edges at the same
//! point, since they are the interaction anchors; edges are scanned by
//! source vertex in storage order, then by position in the source's
//! outgoing list.

use vstd::prelude::*;
use crate::geometry::{disc_contains, disc_hit, segment_zone_contains, segment_zone_hit, Point,
    Rect, COORD_LIMIT};
use crate::graph::{graph_wf, vertex_wf, Graph, VertexModel};

verus! {

/// The clickable zone of an edge extends this far to each side of its
/// segment, wider than the drawn stroke so edges are comfortable targets.
pub const EDGE_HIT_HALFWIDTH: i64 = 3;

/// Style and layout constants that hit-testing and event handling need:
/// the vertex disc radius and the widget's drawable rectangle.
#[derive(Clone, Copy, PartialEq, Eq, Structural, Debug)]
pub struct Config {
    pub vertex_radius: i64,
    pub rect: Rect,
}

impl Config {
    /// A positive radius within the coordinate bound, and a rectangle
    /// roomy enough that a vertex padded by its radius fits inside.
    pub open spec fn wf(self) -> bool {
        &&& 0 < self.vertex_radius <= COORD_LIMIT
        &&& self.rect.wf()
        &&& self.rect.x_min + 2 * self.vertex_radius <= self.rect.x_max
        &&& self.rect.y_min + 2 * self.vertex_radius <= self.rect.y_max
    }
}

/// The element under a point.
#[derive(Clone, Copy, PartialEq, Eq, Structural, Debug)]
pub enum Hit {
    /// A vertex, by index.
    Vertex(usize),
    /// An edge, as its source vertex's index and the position of the edge
    /// in the source's outgoing list.
    Edge(usize, usize),
    /// Nothing.
    Empty,
}

/// Spec-level counterpart of `Hit`, over unbounded indices.
pub ghost enum HitSpec {
    Vertex(int),
    Edge(int, int),
    Empty,
}

impl View for Hit {
    type V = HitSpec;

    open spec fn view(&self) -> HitSpec {
        match *self {
            Hit::Vertex(i) => HitSpec::Vertex(i as int),
            Hit::Edge(s, k) => HitSpec::Edge(s as int, k as int),
            Hit::Empty => HitSpec::Empty,
        }
    }
}

/// The first vertex at or after index `i` whose disc contains `p`.
pub open spec fn first_vertex_hit_from(g: Seq<VertexModel>, radius: int, p: Point, i: int) -> Option<
    int,
>
    decreases g.len() - i,
{
    if i < 0 || i >= g.len() {
        None
    } else if disc_contains(g[i].pos, radius, p) {
        Some(i)
    } else {
        first_vertex_hit_from(g, radius, p, i + 1)
    }
}

/// The first vertex in storage order whose disc contains `p`.
pub open spec fn first_vertex_hit(g: Seq<VertexModel>, radius: int, p: Point) -> Option<int> {
    first_vertex_hit_from(g, radius, p, 0)
}

/// The first outgoing edge of vertex `i`, at or after position `k`, whose
/// zone contains `p`.
pub open spec fn first_out_hit_from(g: Seq<VertexModel>, i: int, p: Point, k: int) -> Option<int>
    decreases g[i].outs.len() - k,
{
    if k < 0 || k >= g[i].outs.len() {
        None
    } else if segment_zone_contains(
        g[i].pos,
        g[g[i].outs[k]].pos,
        p,
        EDGE_HIT_HALFWIDTH as int,
    ) {
        Some(k)
    } else {
        first_out_hit_from(g, i, p, k + 1)
    }
}

/// The first edge, scanning source vertices at or after `i` in storage
/// order and each outgoing list in order, whose zone contains `p`.
pub open spec fn first_edge_hit_from(g: Seq<VertexModel>, p: Point, i: int) -> Option<(int, int)>
    decreases g.len() - i,
{
    if i < 0 || i >= g.len() {
        None
    } else {
        match first_out_hit_from(g, i, p, 0) {
            Some(k) => Some((i, k)),
            None => first_edge_hit_from(g, p, i + 1),
        }
    }
}

/// The first edge in scan order whose zone contains `p`.
pub open spec fn first_edge_hit(g: Seq<VertexModel>, p: Point) -> Option<(int, int)> {
    first_edge_hit_from(g, p, 0)
}

/// What `locate` finds: the first vertex under `p` if any, else the first
/// edge under `p` if any, else nothing.
pub open spec fn locate_spec(g: Seq<VertexModel>, radius: int, p: Point) -> HitSpec {
    match first_vertex_hit(g, radius, p) {
        Some(i) => HitSpec::Vertex(i),
        None => match first_edge_hit(g, p) {
            Some((i, k)) => HitSpec::Edge(i, k),
            None => HitSpec::Empty,
        },
    }
}

/// What the first-vertex scan finds: the returned vertex is hit and no
/// earlier vertex is; where nothing is returned, no vertex is hit. The
/// disc test is strict, so a point at exactly the radius never hits.
pub proof fn lemma_first_vertex_hit_props(g: Seq<VertexModel>, radius: int, p: Point, i: int)
    requires
        0 <= i,
    ensures
        match first_vertex_hit_from(g, radius, p, i) {
            Some(j) => i <= j < g.len() && disc_contains(g[j].pos, radius, p) && forall|u: int|
                i <= u < j ==> !disc_contains(#[trigger] g[u].pos, radius, p),
            None => forall|u: int|
                i <= u < g.len() ==> !disc_contains(#[trigger] g[u].pos, radius, p),
        },
    decreases g.len() - i,
{
    if i < g.len() && !disc_contains(g[i].pos, radius, p) {
        lemma_first_vertex_hit_props(g, radius, p, i + 1);
    }
}

/// The first-edge scan returns a source index and a valid position in its
/// outgoing list, and that edge's zone contains the point.
pub proof fn lemma_first_out_hit_props(g: Seq<VertexModel>, i: int, p: Point, k: int)
    requires
        0 <= k,
    ensures
        match first_out_hit_from(g, i, p, k) {
            Some(k2) => k <= k2 < g[i].outs.len() && segment_zone_contains(
                g[i].pos,
                g[g[i].outs[k2]].pos,
                p,
                EDGE_HIT_HALFWIDTH as int,
            ),
            None => true,
        },
    decreases g[i].outs.len() - k,
{
    if k < g[i].outs.len() && !segment_zone_contains(
        g[i].pos,
        g[g[i].outs[k]].pos,
        p,
        EDGE_HIT_HALFWIDTH as int,
    ) {
        lemma_first_out_hit_props(g, i, p, k + 1);
    }
}

/// The first-edge scan over all sources returns valid indices.
pub proof fn lemma_first_edge_hit_props(g: Seq<VertexModel>, p: Point, i: int)
    requires
        0 <= i,
    ensures
        match first_edge_hit_from(g, p, i) {
            Some((s, k)) => i <= s < g.len() && 0 <= k < g[s].outs.len(),
            None => true,
        },
    decreases g.len() - i,
{
    if 0 <= i < g.len() {
        lemma_first_out_hit_props(g, i, p, 0);
        if first_out_hit_from(g, i, p, 0) is None {
            lemma_first_edge_hit_props(g, p, i + 1);
        }
    }
}

/// The first vertex in storage order whose center is strictly within
/// `cfg.vertex_radius` of `p`.
pub fn vertex_at(g: &Graph, cfg: &Config, p: Point) -> (r: Option<usize>)
    requires
        graph_wf(g@),
        cfg.wf(),
        p.in_bounds(),
    ensures
        match r {
            Some(i) => first_vertex_hit(g@, cfg.vertex_radius as int, p) == Some(i as int),
            None => first_vertex_hit(g@, cfg.vertex_radius as int, p) is None,
        },
{
    let n = g.vertices.len();
    let mut i: usize = 0;
    while i < n
        invariant
            i <= n,
            n == g@.len(),
            graph_wf(g@),
            cfg.wf(),
            p.in_bounds(),
            first_vertex_hit(g@, cfg.vertex_radius as int, p) == first_vertex_hit_from(
                g@,
                cfg.vertex_radius as int,
                p,
                i as int,
            ),
        decreases n - i,
    {
        proof {
            assert(vertex_wf(g@[i as int], g@.len() as int));
        }
        if disc_hit(g.vertices[i].pos, cfg.vertex_radius, p) {
            return Some(i);
        }
        i += 1;
    }
    None
}

/// The first edge in scan order whose clickable zone contains `p`; the
/// result pairs the source vertex's index with the edge's position in the
/// source's outgoing list. An edge whose endpoints coincide has no zone.
pub fn edge_at(g: &Graph, p: Point) -> (r: Option<(usize, usize)>)
    requires
        graph_wf(g@),
        p.in_bounds(),
    ensures
        match r {
            Some((s, k)) => first_edge_hit(g@, p) == Some((s as int, k as int)),
            None => first_edge_hit(g@, p) is None,
        },
{
    let n = g.vertices.len();
    let mut i: usize = 0;
    while i < n
        invariant
            i <= n,
            n == g@.len(),
            graph_wf(g@),
            p.in_bounds(),
            first_edge_hit(g@, p) == first_edge_hit_from(g@, p, i as int),
        decreases n - i,
    {
        let m = g.vertices[i].outs.len();
        let mut k: usize = 0;
        while k < m
            invariant
                k <= m,
                i < n,
                n == g@.len(),
                m == g@[i as int].outs.len(),
                graph_wf(g@),
                p.in_bounds(),
                first_edge_hit(g@, p) == first_edge_hit_from(g@, p, i as int),
                first_out_hit_from(g@, i as int, p, 0) == first_out_hit_from(
                    g@,
                    i as int,
                    p,
                    k as int,
                ),
            decreases m - k,
        {
            let t = g.vertices[i].outs[k];
            proof {
                assert(vertex_wf(g@[i as int], g@.len() as int));
                assert(g@[i as int].outs[k as int] == t as int);
                assert(0 <= t < n);
                assert(vertex_wf(g@[t as int], g@.len() as int));
            }
            if segment_zone_hit(g.vertices[i].pos, g.vertices[t].pos, p, EDGE_HIT_HALFWIDTH) {
                proof {
                    assert(first_out_hit_from(g@, i as int, p, k as int) == Some(k as int));
                    assert(first_edge_hit_from(g@, p, i as int) == Some((i as int, k as int)));
                }
                return Some((i, k));
            }
            k += 1;
        }
        i += 1;
    }
    None
}

/// Finds the element under `p`, vertices taking priority over edges.
pub fn locate(g: &Graph, cfg: &Config, p: Point) -> (h: Hit)
    requires
        graph_wf(g@),
        cfg.wf(),
        p.in_bounds(),
    ensures
        h@ == locate_spec(g@, cfg.vertex_radius as int, p),
{
    match vertex_at(g, cfg, p) {
        Some(i) => Hit::Vertex(i),
        None => match edge_at(g, p) {
            Some((s, k)) => Hit::Edge(s, k),
            None => Hit::Empty,
        },
    }
}

} // verus!
