//! The interaction state machine: turns a stream of low-level pointer
//! events into graph mutations. The widget is always in exactly one mode —
//! idle, moving a vertex, or drawing a prospective edge — and each event
//! is interpreted against the current mode and what lies under the
//! pointer. Events that match no transition are ignored.

use vstd::prelude::*;
use crate::geometry::{clamp_spec, clamp_point, Point, COORD_LIMIT};
use crate::graph::{can_add_edge, graph_wf, spec_add_edge, spec_add_vertex, spec_remove_edge,
    spec_remove_vertex, spec_set_label, spec_set_position, Graph, VertexModel};
use crate::hit::{first_vertex_hit, lemma_first_edge_hit_props, lemma_first_vertex_hit_props,
    locate, locate_spec, vertex_at, Config, Hit, HitSpec};

verus! {

/// The label given to a vertex created by shift-clicking empty canvas.
pub open spec fn default_label() -> Seq<char> {
    "new node"@
}

/// The in-progress gesture; exactly one variant is active at a time.
#[derive(Clone, Copy, PartialEq, Eq, Structural, Debug)]
pub enum Mode {
    /// No gesture in progress.
    Idle,
    /// Dragging vertex `vertex`; `anchor` is its position when the drag
    /// began, so repeated drag events apply their total delta to the same
    /// base and accumulate no error.
    MovingVertex { vertex: usize, anchor: Point },
    /// Dragging a prospective edge out of `source`; `preview` is the
    /// current pointer location of the rubber-band line, never committed
    /// to the graph until release.
    CreatingEdge { source: usize, preview: Point },
}

/// A mode's indices refer to live vertices and its points are in bounds.
pub open spec fn mode_wf(m: Mode, n: int) -> bool {
    match m {
        Mode::Idle => true,
        Mode::MovingVertex { vertex, anchor } => (vertex as int) < n && anchor.in_bounds(),
        Mode::CreatingEdge { source, preview } => (source as int) < n && preview.in_bounds(),
    }
}

/// A pointer button.
#[derive(Clone, Copy, PartialEq, Eq, Structural, Debug)]
pub enum Button {
    Left,
    Right,
}

/// One low-level input event, in widget-local coordinates.
#[derive(Clone, Copy, PartialEq, Eq, Structural, Debug)]
pub enum Event {
    /// A button went down at `at`; `shift` is the keyboard modifier.
    Press { button: Button, at: Point, shift: bool },
    /// The pointer moved to `to` with a button held; `delta_x`/`delta_y`
    /// is the total movement since the press that started the drag.
    Drag { button: Button, to: Point, delta_x: i64, delta_y: i64 },
    /// A button came up at `at`.
    Release { button: Button, at: Point },
}

/// Event coordinates and deltas stay within the coordinate bound.
pub open spec fn event_wf(ev: Event) -> bool {
    match ev {
        Event::Press { at, .. } => at.in_bounds(),
        Event::Drag { to, delta_x, delta_y, .. } => to.in_bounds() && -COORD_LIMIT <= delta_x
            <= COORD_LIMIT && -COORD_LIMIT <= delta_y <= COORD_LIMIT,
        Event::Release { at, .. } => at.in_bounds(),
    }
}

/// The widget's persistent state: the graph and the current gesture mode.
pub struct State {
    pub graph: Graph,
    pub mode: Mode,
}

/// Mathematical model of the widget state.
pub ghost struct StateModel {
    pub graph: Seq<VertexModel>,
    pub mode: Mode,
}

impl View for State {
    type V = StateModel;

    open spec fn view(&self) -> StateModel {
        StateModel { graph: self.graph@, mode: self.mode }
    }
}

/// Well-formedness of the widget state.
pub open spec fn state_wf(s: StateModel) -> bool {
    graph_wf(s.graph) && mode_wf(s.mode, s.graph.len() as int)
}

/// Where the anchor ends up after a drag by the given total delta.
pub open spec fn dragged_point(anchor: Point, dx: int, dy: int) -> Point {
    Point { x: (anchor.x + dx) as i64, y: (anchor.y + dy) as i64 }
}

/// The transition for a left press: in idle, shift starts an edge from a
/// hit vertex or creates a vertex on empty canvas, and without shift a hit
/// vertex starts a move; while moving, a press on a vertex re-anchors the
/// move to that vertex at its current position. Anything else is ignored.
pub open spec fn step_left_press(pre: StateModel, cfg: Config, at: Point, shift: bool) -> StateModel {
    let h = locate_spec(pre.graph, cfg.vertex_radius as int, at);
    match pre.mode {
        Mode::Idle => if shift {
            match h {
                HitSpec::Vertex(v) => StateModel {
                    graph: pre.graph,
                    mode: Mode::CreatingEdge { source: v as usize, preview: at },
                },
                HitSpec::Empty => StateModel {
                    graph: spec_add_vertex(
                        pre.graph,
                        default_label(),
                        clamp_spec(cfg.rect, cfg.vertex_radius as int, at),
                    ),
                    mode: Mode::Idle,
                },
                HitSpec::Edge(_, _) => pre,
            }
        } else {
            match h {
                HitSpec::Vertex(v) => StateModel {
                    graph: pre.graph,
                    mode: Mode::MovingVertex { vertex: v as usize, anchor: pre.graph[v].pos },
                },
                _ => pre,
            }
        },
        Mode::MovingVertex { .. } => match h {
            HitSpec::Vertex(v) => StateModel {
                graph: pre.graph,
                mode: Mode::MovingVertex { vertex: v as usize, anchor: pre.graph[v].pos },
            },
            _ => pre,
        },
        Mode::CreatingEdge { .. } => pre,
    }
}

/// The transition for a right press: only meaningful in idle, where it
/// deletes the vertex under the point (cascading to its edges) or, failing
/// that, the edge under the point.
pub open spec fn step_right_press(pre: StateModel, cfg: Config, at: Point) -> StateModel {
    match pre.mode {
        Mode::Idle => match locate_spec(pre.graph, cfg.vertex_radius as int, at) {
            HitSpec::Vertex(v) => StateModel {
                graph: spec_remove_vertex(pre.graph, v),
                mode: Mode::Idle,
            },
            HitSpec::Edge(s, k) => StateModel {
                graph: spec_remove_edge(pre.graph, s, k),
                mode: Mode::Idle,
            },
            HitSpec::Empty => pre,
        },
        _ => pre,
    }
}

/// The transition for a left drag: while moving, the vertex goes to its
/// anchor plus the total delta, clamped into the rectangle padded by the
/// vertex radius; while drawing an edge, the preview follows the pointer
/// clamped into the rectangle. In idle, drags are ignored.
pub open spec fn step_left_drag(
    pre: StateModel,
    cfg: Config,
    to: Point,
    dx: int,
    dy: int,
) -> StateModel {
    match pre.mode {
        Mode::Idle => pre,
        Mode::MovingVertex { vertex, anchor } => StateModel {
            graph: spec_set_position(
                pre.graph,
                vertex as int,
                clamp_spec(cfg.rect, cfg.vertex_radius as int, dragged_point(anchor, dx, dy)),
            ),
            mode: pre.mode,
        },
        Mode::CreatingEdge { source, .. } => StateModel {
            graph: pre.graph,
            mode: Mode::CreatingEdge { source, preview: clamp_spec(cfg.rect, 0, to) },
        },
    }
}

/// The transition for a left release: while drawing an edge, releasing
/// over a vertex other than the source commits the edge unless it already
/// exists; any other release simply discards the gesture and returns to
/// idle.
pub open spec fn step_left_release(pre: StateModel, cfg: Config, at: Point) -> StateModel {
    match pre.mode {
        Mode::Idle => pre,
        Mode::MovingVertex { .. } => StateModel { graph: pre.graph, mode: Mode::Idle },
        Mode::CreatingEdge { source, .. } => match first_vertex_hit(
            pre.graph,
            cfg.vertex_radius as int,
            at,
        ) {
            Some(t) => if can_add_edge(pre.graph, source as int, t) {
                StateModel { graph: spec_add_edge(pre.graph, source as int, t), mode: Mode::Idle }
            } else {
                StateModel { graph: pre.graph, mode: Mode::Idle }
            },
            None => StateModel { graph: pre.graph, mode: Mode::Idle },
        },
    }
}

/// The whole transition table: one event against one state. Right drags
/// and right releases match no row and are ignored.
pub open spec fn step_spec(pre: StateModel, cfg: Config, ev: Event) -> StateModel {
    match ev {
        Event::Press { button: Button::Left, at, shift } => step_left_press(pre, cfg, at, shift),
        Event::Press { button: Button::Right, at, .. } => step_right_press(pre, cfg, at),
        Event::Drag { button: Button::Left, to, delta_x, delta_y } => step_left_drag(
            pre,
            cfg,
            to,
            delta_x as int,
            delta_y as int,
        ),
        Event::Drag { button: Button::Right, .. } => pre,
        Event::Release { button: Button::Left, at } => step_left_release(pre, cfg, at),
        Event::Release { button: Button::Right, .. } => pre,
    }
}

impl State {
    /// A widget with an empty graph, in idle.
    pub fn new() -> (s: State)
        ensures
            s@.graph == Seq::<VertexModel>::empty(),
            s@.mode == Mode::Idle,
            state_wf(s@),
    {
        State { graph: Graph::new(), mode: Mode::Idle }
    }

    /// Applies one input event to the widget: the effect is exactly one
    /// row of the transition table, or nothing where no row matches.
    pub fn handle_event(&mut self, cfg: &Config, ev: Event)
        requires
            state_wf(old(self)@),
            cfg.wf(),
            event_wf(ev),
        ensures
            final(self)@ == step_spec(old(self)@, *cfg, ev),
            state_wf(final(self)@),
    {
        let ghost pre = self@;
        match ev {
            Event::Press { button: Button::Left, at, shift } => {
                let h = locate(&self.graph, cfg, at);
                proof {
                    lemma_first_vertex_hit_props(pre.graph, cfg.vertex_radius as int, at, 0);
                    lemma_first_edge_hit_props(pre.graph, at, 0);
                }
                let mode = self.mode;
                match mode {
                    Mode::Idle => if shift {
                        match h {
                            Hit::Vertex(v) => {
                                self.mode = Mode::CreatingEdge { source: v, preview: at };
                            },
                            Hit::Empty => {
                                let label = String::from_str("new node");
                                let p = clamp_point(&cfg.rect, cfg.vertex_radius, at);
                                self.graph.add_vertex(label, p);
                            },
                            Hit::Edge(_, _) => {},
                        }
                    } else {
                        match h {
                            Hit::Vertex(v) => {
                                let anchor = self.graph.vertices[v].pos;
                                self.mode = Mode::MovingVertex { vertex: v, anchor };
                            },
                            _ => {},
                        }
                    },
                    Mode::MovingVertex { .. } => {
                        match h {
                            Hit::Vertex(v) => {
                                let anchor = self.graph.vertices[v].pos;
                                self.mode = Mode::MovingVertex { vertex: v, anchor };
                            },
                            _ => {},
                        }
                    },
                    Mode::CreatingEdge { .. } => {},
                }
            },
            Event::Press { button: Button::Right, at, .. } => {
                let mode = self.mode;
                match mode {
                    Mode::Idle => {
                        let h = locate(&self.graph, cfg, at);
                        proof {
                            lemma_first_vertex_hit_props(
                                pre.graph,
                                cfg.vertex_radius as int,
                                at,
                                0,
                            );
                            lemma_first_edge_hit_props(pre.graph, at, 0);
                        }
                        match h {
                            Hit::Vertex(v) => {
                                self.graph.remove_vertex(v);
                            },
                            Hit::Edge(s, k) => {
                                self.graph.remove_edge(s, k);
                            },
                            Hit::Empty => {},
                        }
                    },
                    _ => {},
                }
            },
            Event::Drag { button: Button::Left, to, delta_x, delta_y } => {
                let mode = self.mode;
                match mode {
                    Mode::Idle => {},
                    Mode::MovingVertex { vertex, anchor } => {
                        let moved = Point { x: anchor.x + delta_x, y: anchor.y + delta_y };
                        let p = clamp_point(&cfg.rect, cfg.vertex_radius, moved);
                        self.graph.set_position(vertex, p);
                    },
                    Mode::CreatingEdge { source, .. } => {
                        let p = clamp_point(&cfg.rect, 0, to);
                        self.mode = Mode::CreatingEdge { source, preview: p };
                    },
                }
            },
            Event::Drag { button: Button::Right, .. } => {},
            Event::Release { button: Button::Left, at } => {
                let mode = self.mode;
                match mode {
                    Mode::Idle => {},
                    Mode::MovingVertex { .. } => {
                        self.mode = Mode::Idle;
                    },
                    Mode::CreatingEdge { source, .. } => {
                        let t = vertex_at(&self.graph, cfg, at);
                        proof {
                            lemma_first_vertex_hit_props(
                                pre.graph,
                                cfg.vertex_radius as int,
                                at,
                                0,
                            );
                        }
                        match t {
                            Some(t) => {
                                self.graph.add_edge(source, t);
                            },
                            None => {},
                        }
                        self.mode = Mode::Idle;
                    },
                }
            },
            Event::Release { button: Button::Right, .. } => {},
        }
    }

    /// Applies an ordered batch of events, as the host delivers them once
    /// per frame: each event is interpreted against the state the previous
    /// events left behind.
    pub fn handle_events(&mut self, cfg: &Config, evs: &Vec<Event>)
        requires
            state_wf(old(self)@),
            cfg.wf(),
            forall|i: int| 0 <= i < evs@.len() ==> event_wf(#[trigger] evs@[i]),
        ensures
            final(self)@ == steps_spec(old(self)@, *cfg, evs@),
            state_wf(final(self)@),
    {
        let mut i: usize = 0;
        while i < evs.len()
            invariant
                i <= evs@.len(),
                cfg.wf(),
                forall|j: int| 0 <= j < evs@.len() ==> event_wf(#[trigger] evs@[j]),
                state_wf(self@),
                self@ == steps_spec(old(self)@, *cfg, evs@.take(i as int)),
            decreases evs@.len() - i,
        {
            let ghost prefix = evs@.take(i as int);
            self.handle_event(cfg, evs[i]);
            proof {
                assert(evs@.take(i + 1).drop_last() =~= prefix);
                assert(evs@.take(i + 1).last() == evs@[i as int]);
            }
            i += 1;
        }
        proof {
            assert(evs@.take(evs@.len() as int) =~= evs@);
        }
    }

    /// Replaces the label of vertex `v` verbatim, as the host's label
    /// editor requests; the gesture mode is untouched.
    pub fn set_label(&mut self, v: usize, label: String)
        requires
            state_wf(old(self)@),
        ensures
            state_wf(final(self)@),
            final(self)@.mode == old(self)@.mode,
            (v as int) < old(self)@.graph.len() ==> final(self)@.graph == spec_set_label(
                old(self)@.graph,
                v as int,
                label@,
            ),
            (v as int) >= old(self)@.graph.len() ==> final(self)@.graph == old(self)@.graph,
    {
        self.graph.set_label(v, label);
    }
}

/// A batch of events folded over the single-event transition, first to
/// last.
pub open spec fn steps_spec(pre: StateModel, cfg: Config, evs: Seq<Event>) -> StateModel
    decreases evs.len(),
{
    if evs.len() == 0 {
        pre
    } else {
        step_spec(steps_spec(pre, cfg, evs.drop_last()), cfg, evs.last())
    }
}

} // verus!
