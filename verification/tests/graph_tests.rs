use graph_editor::geometry::Point;
use graph_editor::graph::Graph;
use graph_editor::hit::{edge_at, locate, vertex_at, Config, Hit};
use graph_editor::geometry::Rect;

fn pt(x: i64, y: i64) -> Point {
    Point { x, y }
}

fn cfg() -> Config {
    Config {
        vertex_radius: 35,
        rect: Rect { x_min: -500, x_max: 500, y_min: -400, y_max: 400 },
    }
}

#[test]
fn add_vertex_returns_indices_in_order() {
    let mut g = Graph::new();
    assert_eq!(g.vertex_count(), 0);
    let a = g.add_vertex("A".to_string(), pt(0, 0));
    let b = g.add_vertex("B".to_string(), pt(100, 0));
    assert_eq!(a, 0);
    assert_eq!(b, 1);
    assert_eq!(g.vertex_count(), 2);
    assert_eq!(g.vertices[0].label, "A");
    assert_eq!(g.vertices[1].pos, pt(100, 0));
}

#[test]
fn add_edge_records_mirrored_pair() {
    let mut g = Graph::new();
    let a = g.add_vertex("A".to_string(), pt(0, 0));
    let b = g.add_vertex("B".to_string(), pt(100, 0));
    g.add_edge(a, b);
    assert_eq!(g.vertices[a].outs, vec![b]);
    assert_eq!(g.vertices[b].ins, vec![a]);
    assert!(g.vertices[a].ins.is_empty());
    assert!(g.vertices[b].outs.is_empty());
    assert!(g.has_edge(a, b));
    assert!(!g.has_edge(b, a));
}

#[test]
fn add_edge_suppresses_duplicates() {
    let mut g = Graph::new();
    let a = g.add_vertex("A".to_string(), pt(0, 0));
    let b = g.add_vertex("B".to_string(), pt(100, 0));
    g.add_edge(a, b);
    g.add_edge(a, b);
    g.add_edge(a, b);
    assert_eq!(g.vertices[a].outs, vec![b]);
    assert_eq!(g.vertices[b].ins, vec![a]);
    // the opposite direction is a different edge and still allowed
    g.add_edge(b, a);
    assert_eq!(g.vertices[b].outs, vec![a]);
    assert_eq!(g.vertices[a].ins, vec![b]);
}

#[test]
fn add_edge_rejects_self_loop() {
    // policy: a self-loop is rejected as a no-op
    let mut g = Graph::new();
    let a = g.add_vertex("A".to_string(), pt(0, 0));
    g.add_edge(a, a);
    assert!(g.vertices[a].outs.is_empty());
    assert!(g.vertices[a].ins.is_empty());
}

#[test]
fn add_edge_invalid_endpoint_is_noop() {
    let mut g = Graph::new();
    let a = g.add_vertex("A".to_string(), pt(0, 0));
    g.add_edge(a, 7);
    g.add_edge(7, a);
    assert!(g.vertices[a].outs.is_empty());
    assert!(g.vertices[a].ins.is_empty());
}

#[test]
fn remove_edge_removes_both_sides() {
    let mut g = Graph::new();
    let a = g.add_vertex("A".to_string(), pt(0, 0));
    let b = g.add_vertex("B".to_string(), pt(100, 0));
    let c = g.add_vertex("C".to_string(), pt(0, 100));
    g.add_edge(a, b);
    g.add_edge(a, c);
    g.remove_edge(a, 0); // removes a -> b
    assert_eq!(g.vertices[a].outs, vec![c]);
    assert!(g.vertices[b].ins.is_empty());
    assert_eq!(g.vertices[c].ins, vec![a]);
}

#[test]
fn remove_edge_invalid_is_noop() {
    let mut g = Graph::new();
    let a = g.add_vertex("A".to_string(), pt(0, 0));
    let b = g.add_vertex("B".to_string(), pt(100, 0));
    g.add_edge(a, b);
    g.remove_edge(a, 5);
    g.remove_edge(9, 0);
    assert_eq!(g.vertices[a].outs, vec![b]);
}

#[test]
fn remove_vertex_cascades_and_renumbers() {
    let mut g = Graph::new();
    let a = g.add_vertex("A".to_string(), pt(0, 0));
    let b = g.add_vertex("B".to_string(), pt(100, 0));
    let c = g.add_vertex("C".to_string(), pt(0, 100));
    g.add_edge(a, b);
    g.add_edge(b, c);
    g.add_edge(c, a);
    // removing B kills A->B and B->C; C->A survives with indices renumbered
    g.remove_vertex(b);
    assert_eq!(g.vertex_count(), 2);
    assert_eq!(g.vertices[0].label, "A");
    assert_eq!(g.vertices[1].label, "C");
    assert!(g.vertices[0].outs.is_empty());
    assert_eq!(g.vertices[1].outs, vec![0]);
    assert_eq!(g.vertices[0].ins, vec![1]);
    assert!(g.vertices[1].ins.is_empty());
}

#[test]
fn remove_vertex_invalid_is_noop() {
    let mut g = Graph::new();
    g.add_vertex("A".to_string(), pt(0, 0));
    g.remove_vertex(3);
    assert_eq!(g.vertex_count(), 1);
}

#[test]
fn set_label_replaces_verbatim() {
    let mut g = Graph::new();
    let a = g.add_vertex("A".to_string(), pt(0, 0));
    g.set_label(a, "".to_string());
    assert_eq!(g.vertices[a].label, "");
    g.set_label(a, "renamed".to_string());
    assert_eq!(g.vertices[a].label, "renamed");
    g.set_label(9, "ghostly".to_string());
    assert_eq!(g.vertices[a].label, "renamed");
}

#[test]
fn vertex_at_uses_strict_radius() {
    let mut g = Graph::new();
    g.add_vertex("A".to_string(), pt(0, 0));
    let c = cfg();
    assert_eq!(vertex_at(&g, &c, pt(34, 0)), Some(0));
    assert_eq!(vertex_at(&g, &c, pt(35, 0)), None);
}

#[test]
fn vertex_at_first_in_storage_order_wins() {
    let mut g = Graph::new();
    g.add_vertex("A".to_string(), pt(0, 0));
    g.add_vertex("B".to_string(), pt(20, 0)); // overlapping discs
    let c = cfg();
    assert_eq!(vertex_at(&g, &c, pt(10, 0)), Some(0));
    assert_eq!(vertex_at(&g, &c, pt(50, 0)), Some(1));
}

#[test]
fn edge_at_finds_edge_zone() {
    let mut g = Graph::new();
    let a = g.add_vertex("A".to_string(), pt(0, 0));
    let b = g.add_vertex("B".to_string(), pt(100, 0));
    g.add_edge(a, b);
    assert_eq!(edge_at(&g, pt(50, 3)), Some((a, 0)));
    assert_eq!(edge_at(&g, pt(50, -3)), Some((a, 0)));
    assert_eq!(edge_at(&g, pt(50, 4)), None);
}

#[test]
fn edge_at_ignores_degenerate_edges() {
    // two distinct vertices at the same position: their edge has no zone
    let mut g = Graph::new();
    let a = g.add_vertex("A".to_string(), pt(0, 0));
    let b = g.add_vertex("B".to_string(), pt(0, 0));
    g.add_edge(a, b);
    assert_eq!(edge_at(&g, pt(0, 1)), None);
}

#[test]
fn locate_prefers_vertices_over_edges() {
    let mut g = Graph::new();
    let a = g.add_vertex("A".to_string(), pt(0, 0));
    let b = g.add_vertex("B".to_string(), pt(100, 0));
    g.add_edge(a, b);
    let c = cfg();
    // (10,0) lies on the edge zone and inside A's disc: the vertex wins
    assert_eq!(locate(&g, &c, pt(10, 0)), Hit::Vertex(a));
    // (50,0) is on the edge only
    assert_eq!(locate(&g, &c, pt(50, 0)), Hit::Edge(a, 0));
    // far away: nothing
    assert_eq!(locate(&g, &c, pt(300, 300)), Hit::Empty);
}
