use graph_editor::geometry::{Point, Rect};
use graph_editor::hit::Config;
use graph_editor::machine::{Button, Event, Mode, State};
use graph_editor::serialize::{serialize, Order};

fn pt(x: i64, y: i64) -> Point {
    Point { x, y }
}

fn cfg() -> Config {
    Config {
        vertex_radius: 35,
        rect: Rect { x_min: -500, x_max: 500, y_min: -400, y_max: 400 },
    }
}

fn left_press(x: i64, y: i64, shift: bool) -> Event {
    Event::Press { button: Button::Left, at: pt(x, y), shift }
}

fn right_press(x: i64, y: i64) -> Event {
    Event::Press { button: Button::Right, at: pt(x, y), shift: false }
}

fn left_drag(x: i64, y: i64, dx: i64, dy: i64) -> Event {
    Event::Drag { button: Button::Left, to: pt(x, y), delta_x: dx, delta_y: dy }
}

fn left_release(x: i64, y: i64) -> Event {
    Event::Release { button: Button::Left, at: pt(x, y) }
}

#[test]
fn shift_click_empty_creates_vertex() {
    // scenario: empty graph, shift-click at (10,10)
    let c = cfg();
    let mut st = State::new();
    st.handle_event(&c, left_press(10, 10, true));
    assert_eq!(st.graph.vertex_count(), 1);
    assert_eq!(st.graph.vertices[0].pos, pt(10, 10));
    assert_eq!(st.graph.vertices[0].label, "new node");
    assert_eq!(st.mode, Mode::Idle);
    let text = serialize(&st.graph, Order::Insertion);
    assert_eq!(text, "new node;\n\n");
}

#[test]
fn shift_click_near_border_clamps_new_vertex() {
    let c = cfg();
    let mut st = State::new();
    st.handle_event(&c, left_press(499, -399, true));
    assert_eq!(st.graph.vertices[0].pos, pt(465, -365));
}

#[test]
fn drag_to_connect_creates_edge() {
    // scenario: A at (0,0), B at (100,0); shift-press on A, release on B
    let c = cfg();
    let mut st = State::new();
    st.graph.add_vertex("A".to_string(), pt(0, 0));
    st.graph.add_vertex("B".to_string(), pt(100, 0));
    st.handle_event(&c, left_press(0, 0, true));
    assert_eq!(st.mode, Mode::CreatingEdge { source: 0, preview: pt(0, 0) });
    st.handle_event(&c, left_drag(60, 0, 60, 0));
    assert_eq!(st.mode, Mode::CreatingEdge { source: 0, preview: pt(60, 0) });
    st.handle_event(&c, left_release(100, 0));
    assert_eq!(st.mode, Mode::Idle);
    assert_eq!(st.graph.vertices[0].outs, vec![1]);
    assert_eq!(st.graph.vertices[1].ins, vec![0]);
    let text = serialize(&st.graph, Order::Insertion);
    assert_eq!(text, "A;\nB;\n\nA => B;");
}

#[test]
fn release_over_empty_discards_edge_preview() {
    let c = cfg();
    let mut st = State::new();
    st.graph.add_vertex("A".to_string(), pt(0, 0));
    st.handle_event(&c, left_press(0, 0, true));
    st.handle_event(&c, left_release(300, 300));
    assert_eq!(st.mode, Mode::Idle);
    assert!(st.graph.vertices[0].outs.is_empty());
}

#[test]
fn release_over_source_creates_no_self_loop() {
    // policy: releasing the drag over its own source vertex adds nothing
    let c = cfg();
    let mut st = State::new();
    st.graph.add_vertex("A".to_string(), pt(0, 0));
    st.handle_event(&c, left_press(0, 0, true));
    st.handle_event(&c, left_release(5, 5));
    assert_eq!(st.mode, Mode::Idle);
    assert!(st.graph.vertices[0].outs.is_empty());
    assert!(st.graph.vertices[0].ins.is_empty());
}

#[test]
fn duplicate_edge_gesture_is_discarded() {
    let c = cfg();
    let mut st = State::new();
    st.graph.add_vertex("A".to_string(), pt(0, 0));
    st.graph.add_vertex("B".to_string(), pt(100, 0));
    st.graph.add_edge(0, 1);
    st.handle_event(&c, left_press(0, 0, true));
    st.handle_event(&c, left_release(100, 0));
    assert_eq!(st.graph.vertices[0].outs, vec![1]);
    assert_eq!(st.graph.vertices[1].ins, vec![0]);
}

#[test]
fn right_click_vertex_cascades_delete() {
    // scenario: edge A->B exists; right-click at A's position
    let c = cfg();
    let mut st = State::new();
    st.graph.add_vertex("A".to_string(), pt(0, 0));
    st.graph.add_vertex("B".to_string(), pt(100, 0));
    st.graph.add_edge(0, 1);
    st.handle_event(&c, right_press(0, 0));
    assert_eq!(st.graph.vertex_count(), 1);
    assert_eq!(st.graph.vertices[0].label, "B");
    assert!(st.graph.vertices[0].outs.is_empty());
    assert!(st.graph.vertices[0].ins.is_empty());
}

#[test]
fn right_click_edge_removes_it() {
    let c = cfg();
    let mut st = State::new();
    st.graph.add_vertex("A".to_string(), pt(0, 0));
    st.graph.add_vertex("B".to_string(), pt(100, 0));
    st.graph.add_edge(0, 1);
    st.handle_event(&c, right_press(50, 0));
    assert_eq!(st.graph.vertex_count(), 2);
    assert!(st.graph.vertices[0].outs.is_empty());
    assert!(st.graph.vertices[1].ins.is_empty());
}

#[test]
fn right_click_empty_does_nothing() {
    let c = cfg();
    let mut st = State::new();
    st.graph.add_vertex("A".to_string(), pt(0, 0));
    st.handle_event(&c, right_press(300, 300));
    assert_eq!(st.graph.vertex_count(), 1);
}

#[test]
fn drag_moves_vertex_from_anchor() {
    // scenario: drag a vertex from (50,50) by (20,-10), then further
    let c = cfg();
    let mut st = State::new();
    st.graph.add_vertex("A".to_string(), pt(50, 50));
    st.handle_event(&c, left_press(50, 50, false));
    assert_eq!(st.mode, Mode::MovingVertex { vertex: 0, anchor: pt(50, 50) });
    st.handle_event(&c, left_drag(70, 40, 20, -10));
    assert_eq!(st.graph.vertices[0].pos, pt(70, 40));
    // a second drag of the same press accumulates from the original anchor,
    // not from the intermediate position
    st.handle_event(&c, left_drag(75, 35, 25, -15));
    assert_eq!(st.graph.vertices[0].pos, pt(75, 35));
    st.handle_event(&c, left_release(75, 35));
    assert_eq!(st.mode, Mode::Idle);
}

#[test]
fn drag_clamps_vertex_to_padded_rect() {
    let c = cfg();
    let mut st = State::new();
    st.graph.add_vertex("A".to_string(), pt(0, 0));
    st.handle_event(&c, left_press(0, 0, false));
    st.handle_event(&c, left_drag(500, 400, 10_000, 10_000));
    assert_eq!(st.graph.vertices[0].pos, pt(465, 365));
}

#[test]
fn press_while_moving_reanchors() {
    let c = cfg();
    let mut st = State::new();
    st.graph.add_vertex("A".to_string(), pt(0, 0));
    st.graph.add_vertex("B".to_string(), pt(200, 0));
    st.handle_event(&c, left_press(0, 0, false));
    assert_eq!(st.mode, Mode::MovingVertex { vertex: 0, anchor: pt(0, 0) });
    // a second press without a release re-anchors on the newly hit vertex
    st.handle_event(&c, left_press(200, 0, false));
    assert_eq!(st.mode, Mode::MovingVertex { vertex: 1, anchor: pt(200, 0) });
}

#[test]
fn shift_click_on_edge_is_ignored() {
    // shift-press over an edge hits neither a vertex nor empty canvas:
    // no transition matches, so nothing changes
    let c = cfg();
    let mut st = State::new();
    st.graph.add_vertex("A".to_string(), pt(0, 0));
    st.graph.add_vertex("B".to_string(), pt(300, 0));
    st.graph.add_edge(0, 1);
    st.handle_event(&c, left_press(150, 1, true));
    assert_eq!(st.graph.vertex_count(), 2);
    assert_eq!(st.mode, Mode::Idle);
}

#[test]
fn plain_click_on_empty_is_ignored() {
    let c = cfg();
    let mut st = State::new();
    st.graph.add_vertex("A".to_string(), pt(0, 0));
    st.handle_event(&c, left_press(300, 300, false));
    assert_eq!(st.mode, Mode::Idle);
    assert_eq!(st.graph.vertex_count(), 1);
}

#[test]
fn batch_of_events_runs_in_order() {
    let c = cfg();
    let mut st = State::new();
    let events = vec![
        left_press(10, 10, true),      // create a vertex at (10,10)
        left_press(10, 10, false),     // grab it
        left_drag(110, 10, 100, 0),    // move it
        left_release(110, 10),         // drop it
        left_press(-200, 0, true),     // create another at (-200,0)
    ];
    st.handle_events(&c, &events);
    assert_eq!(st.graph.vertex_count(), 2);
    assert_eq!(st.graph.vertices[0].pos, pt(110, 10));
    assert_eq!(st.graph.vertices[1].pos, pt(-200, 0));
    assert_eq!(st.mode, Mode::Idle);
}

#[test]
fn state_set_label_keeps_mode() {
    let c = cfg();
    let mut st = State::new();
    st.graph.add_vertex("A".to_string(), pt(0, 0));
    st.handle_event(&c, left_press(0, 0, false));
    st.set_label(0, "Anchor".to_string());
    assert_eq!(st.graph.vertices[0].label, "Anchor");
    assert_eq!(st.mode, Mode::MovingVertex { vertex: 0, anchor: pt(0, 0) });
}
