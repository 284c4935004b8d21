use graph_editor::geometry::Point;
use graph_editor::graph::Graph;
use graph_editor::serialize::{lex_le_str, serialize, Order};

fn pt(x: i64, y: i64) -> Point {
    Point { x, y }
}

#[test]
fn empty_graph_is_just_the_separator() {
    let g = Graph::new();
    assert_eq!(serialize(&g, Order::Insertion), "\n\n");
    assert_eq!(serialize(&g, Order::Label), "\n\n");
}

#[test]
fn single_vertex_no_edges() {
    let mut g = Graph::new();
    g.add_vertex("new node".to_string(), pt(10, 10));
    assert_eq!(serialize(&g, Order::Insertion), "new node;\n\n");
}

#[test]
fn declarations_then_connections() {
    let mut g = Graph::new();
    let a = g.add_vertex("A".to_string(), pt(0, 0));
    let b = g.add_vertex("B".to_string(), pt(100, 0));
    g.add_edge(a, b);
    assert_eq!(serialize(&g, Order::Insertion), "A;\nB;\n\nA => B;");
    g.add_edge(b, a);
    assert_eq!(serialize(&g, Order::Insertion), "A;\nB;\n\nA => B;\nB => A;");
}

#[test]
fn serialization_is_idempotent() {
    // serializing the same state twice without mutation yields identical text
    let mut g = Graph::new();
    let a = g.add_vertex("one".to_string(), pt(0, 0));
    let b = g.add_vertex("two".to_string(), pt(100, 0));
    g.add_edge(b, a);
    let s1 = serialize(&g, Order::Insertion);
    let s2 = serialize(&g, Order::Insertion);
    assert_eq!(s1, s2);
    let l1 = serialize(&g, Order::Label);
    let l2 = serialize(&g, Order::Label);
    assert_eq!(l1, l2);
}

#[test]
fn label_order_resorts_vertices() {
    let mut g = Graph::new();
    let c = g.add_vertex("cherry".to_string(), pt(0, 0));
    let a = g.add_vertex("apple".to_string(), pt(100, 0));
    let b = g.add_vertex("banana".to_string(), pt(200, 0));
    g.add_edge(c, a);
    g.add_edge(a, b);
    assert_eq!(
        serialize(&g, Order::Insertion),
        "cherry;\napple;\nbanana;\n\ncherry => apple;\napple => banana;"
    );
    // label order re-sorts the declaration lines and regroups the
    // connection lines by their (sorted) source vertex
    assert_eq!(
        serialize(&g, Order::Label),
        "apple;\nbanana;\ncherry;\n\napple => banana;\ncherry => apple;"
    );
}

#[test]
fn label_order_sort_is_stable_for_equal_labels() {
    let mut g = Graph::new();
    let x1 = g.add_vertex("same".to_string(), pt(0, 0));
    let x2 = g.add_vertex("same".to_string(), pt(100, 0));
    g.add_vertex("aaa".to_string(), pt(200, 0));
    g.add_edge(x1, x2);
    // both "same" entries keep their arrival order after the sort:
    // the one carrying the outgoing edge still comes first
    assert_eq!(
        serialize(&g, Order::Label),
        "aaa;\nsame;\nsame;\n\nsame => same;"
    );
}

#[test]
fn labels_are_projected_verbatim() {
    // label collisions and empty labels are not deduplicated or guarded
    let mut g = Graph::new();
    g.add_vertex("".to_string(), pt(0, 0));
    g.add_vertex("".to_string(), pt(100, 0));
    assert_eq!(serialize(&g, Order::Insertion), ";\n;\n\n");
}

#[test]
fn lex_le_str_orders_by_character_code() {
    assert!(lex_le_str("", ""));
    assert!(lex_le_str("", "a"));
    assert!(!lex_le_str("a", ""));
    assert!(lex_le_str("a", "a"));
    assert!(lex_le_str("a", "b"));
    assert!(!lex_le_str("b", "a"));
    assert!(lex_le_str("ab", "b"));
    assert!(lex_le_str("abc", "abd"));
    assert!(!lex_le_str("abd", "abc"));
    assert!(lex_le_str("ab", "abc"));
    assert!(!lex_le_str("abc", "ab"));
    // upper case sorts before lower case, as Rust's string order does
    assert!(lex_le_str("Z", "a"));
}
