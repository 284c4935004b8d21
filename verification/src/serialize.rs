//! The serializer: a deterministic text projection of the graph. One
//! declaration line per vertex (`label;`), a blank line, then one
//! connection line per directed edge (`source => target;`), enumerated in
//! the graph's storage order — or, as a configurable policy, with the
//! vertices re-sorted by label first. Labels are projected verbatim:
//! collisions are not deduplicated and may make the output ambiguous.

use vstd::prelude::*;
use vstd::multiset::Multiset;
use crate::graph::{graph_wf, vertex_wf, Graph, VertexModel};

verus! {

/// What the serializer reads of one vertex: its label and the labels of
/// its outgoing targets, in list order.
pub ghost struct SerEntry {
    pub label: Seq<char>,
    pub targets: Seq<Seq<char>>,
}

/// The line separator.
pub open spec fn nl() -> Seq<char> {
    seq!['\n']
}

/// The declaration terminator.
pub open spec fn semi() -> Seq<char> {
    seq![';']
}

/// The connection arrow, with its surrounding spaces.
pub open spec fn arrow() -> Seq<char> {
    seq![' ', '=', '>', ' ']
}

/// The serializer's view of a graph: one entry per vertex in storage
/// order, targets resolved to their labels.
pub open spec fn entries_of(g: Seq<VertexModel>) -> Seq<SerEntry> {
    Seq::new(g.len(), |i: int| SerEntry {
        label: g[i].label,
        targets: Seq::new(g[i].outs.len(), |k: int| g[g[i].outs[k]].label),
    })
}

/// Lines joined by a separator: nothing between zero lines, no trailing
/// separator.
pub open spec fn join(lines: Seq<Seq<char>>, sep: Seq<char>) -> Seq<char>
    decreases lines.len(),
{
    if lines.len() == 0 {
        Seq::empty()
    } else if lines.len() == 1 {
        lines[0]
    } else {
        lines[0] + sep + join(lines.drop_first(), sep)
    }
}

/// One declaration line.
pub open spec fn decl_line(e: SerEntry) -> Seq<char> {
    e.label + semi()
}

/// All declaration lines.
pub open spec fn decl_lines(entries: Seq<SerEntry>) -> Seq<Seq<char>> {
    entries.map_values(|e: SerEntry| decl_line(e))
}

/// The connection lines contributed by one vertex.
pub open spec fn entry_con_lines(e: SerEntry) -> Seq<Seq<char>> {
    Seq::new(e.targets.len(), |k: int| e.label + arrow() + e.targets[k] + semi())
}

/// All connection lines, grouped by source vertex in entry order.
pub open spec fn con_lines(entries: Seq<SerEntry>) -> Seq<Seq<char>> {
    entries.map_values(|e: SerEntry| entry_con_lines(e)).flatten()
}

/// The whole text: declarations, a blank line, connections.
pub open spec fn render(entries: Seq<SerEntry>) -> Seq<char> {
    join(decl_lines(entries), nl()) + nl() + nl() + join(con_lines(entries), nl())
}

/// Lexicographic order on labels by character code, the order Rust's own
/// string comparison uses: `a` is less than or equal to `b`.
pub open spec fn lex_le(a: Seq<char>, b: Seq<char>) -> bool
    decreases a.len(),
{
    if a.len() == 0 {
        true
    } else if b.len() == 0 {
        false
    } else if a[0] == b[0] {
        lex_le(a.drop_first(), b.drop_first())
    } else {
        a[0] < b[0]
    }
}

/// Insertion of one entry into a label-sorted sequence: the entry goes
/// after every entry whose label is less than or equal to its own, so
/// entries with equal labels keep their arrival order.
pub open spec fn insert_sorted(x: SerEntry, s: Seq<SerEntry>) -> Seq<SerEntry>
    decreases s.len(),
{
    if s.len() == 0 {
        seq![x]
    } else if lex_le(s[0].label, x.label) {
        seq![s[0]] + insert_sorted(x, s.drop_first())
    } else {
        seq![x] + s
    }
}

/// Stable insertion sort of the entries by label, first to last.
pub open spec fn isort(s: Seq<SerEntry>) -> Seq<SerEntry>
    decreases s.len(),
{
    if s.len() == 0 {
        s
    } else {
        insert_sorted(s.last(), isort(s.drop_last()))
    }
}

/// The enumeration policy: the graph's storage order, or vertices
/// re-sorted by label.
#[derive(Clone, Copy, PartialEq, Eq, Structural, Debug)]
pub enum Order {
    Insertion,
    Label,
}

/// The serializer's full contract: the rendered text of the entries, in
/// storage order or stably sorted by label.
pub open spec fn serialize_spec(g: Seq<VertexModel>, order: Order) -> Seq<char> {
    match order {
        Order::Insertion => render(entries_of(g)),
        Order::Label => render(isort(entries_of(g))),
    }
}

/// The entries ascend by label.
pub open spec fn sorted_by_label(s: Seq<SerEntry>) -> bool {
    forall|i: int, j: int| 0 <= i < j < s.len() ==> lex_le(#[trigger] s[i].label, #[trigger] s[j].label)
}

/// The label order is total: of any two labels, one is less than or equal
/// to the other.
pub proof fn lemma_lex_le_total(a: Seq<char>, b: Seq<char>)
    ensures
        lex_le(a, b) || lex_le(b, a),
    decreases a.len(),
{
    if a.len() > 0 && b.len() > 0 {
        if a[0] == b[0] {
            lemma_lex_le_total(a.drop_first(), b.drop_first());
        }
    }
}

/// The label order is transitive.
pub proof fn lemma_lex_le_trans(a: Seq<char>, b: Seq<char>, c: Seq<char>)
    requires
        lex_le(a, b),
        lex_le(b, c),
    ensures
        lex_le(a, c),
    decreases a.len(),
{
    if a.len() > 0 {
        assert(b.len() > 0);
        assert(c.len() > 0);
        if a[0] == b[0] && b[0] == c[0] {
            lemma_lex_le_trans(a.drop_first(), b.drop_first(), c.drop_first());
        }
    }
}

/// What the insertion step holds: the new entry and the old ones, nothing
/// else.
proof fn lemma_insert_sorted_contains(x: SerEntry, s: Seq<SerEntry>, y: SerEntry)
    ensures
        insert_sorted(x, s).contains(y) <==> (y == x || s.contains(y)),
    decreases s.len(),
{
    let r = insert_sorted(x, s);
    if s.len() == 0 {
        if y == x {
            assert(r[0] == y);
        }
        if r.contains(y) {
            let i = choose|i: int| 0 <= i < r.len() && r[i] == y;
            assert(i == 0);
        }
    } else if lex_le(s[0].label, x.label) {
        lemma_insert_sorted_contains(x, s.drop_first(), y);
        let rest = insert_sorted(x, s.drop_first());
        if r.contains(y) {
            let i = choose|i: int| 0 <= i < r.len() && r[i] == y;
            if i == 0 {
                assert(s[0] == y);
                assert(s.contains(y));
            } else {
                assert(rest[i - 1] == y);
                assert(rest.contains(y));
                if y != x {
                    let j = choose|j: int| 0 <= j < s.drop_first().len() && s.drop_first()[j] == y;
                    assert(s[j + 1] == y);
                }
            }
        }
        if y == x {
            assert(rest.contains(y));
            let i = choose|i: int| 0 <= i < rest.len() && rest[i] == y;
            assert(r[i + 1] == y);
        }
        if s.contains(y) {
            let i = choose|i: int| 0 <= i < s.len() && s[i] == y;
            if i == 0 {
                assert(r[0] == y);
            } else {
                assert(s.drop_first()[i - 1] == y);
                assert(s.drop_first().contains(y));
                assert(rest.contains(y));
                let j = choose|j: int| 0 <= j < rest.len() && rest[j] == y;
                assert(r[j + 1] == y);
            }
        }
    } else {
        if r.contains(y) {
            let i = choose|i: int| 0 <= i < r.len() && r[i] == y;
            if i > 0 {
                assert(s[i - 1] == y);
            }
        }
        if y == x {
            assert(r[0] == y);
        }
        if s.contains(y) {
            let i = choose|i: int| 0 <= i < s.len() && s[i] == y;
            assert(r[i + 1] == y);
        }
    }
}

/// Inserting into a sorted run keeps it sorted.
proof fn lemma_insert_sorted_sorted(x: SerEntry, s: Seq<SerEntry>)
    requires
        sorted_by_label(s),
    ensures
        sorted_by_label(insert_sorted(x, s)),
    decreases s.len(),
{
    let r = insert_sorted(x, s);
    if s.len() == 0 {
    } else if lex_le(s[0].label, x.label) {
        let tail = s.drop_first();
        assert forall|i: int, j: int| 0 <= i < j < tail.len() implies lex_le(
            #[trigger] tail[i].label,
            #[trigger] tail[j].label,
        ) by {
            assert(tail[i] == s[i + 1]);
            assert(tail[j] == s[j + 1]);
        }
        lemma_insert_sorted_sorted(x, tail);
        let rest = insert_sorted(x, tail);
        assert forall|i: int, j: int| 0 <= i < j < r.len() implies lex_le(
            #[trigger] r[i].label,
            #[trigger] r[j].label,
        ) by {
            if i == 0 {
                assert(r[j] == rest[j - 1]);
                assert(rest.contains(rest[j - 1]));
                lemma_insert_sorted_contains(x, tail, rest[j - 1]);
                if rest[j - 1] == x {
                    assert(lex_le(s[0].label, x.label));
                } else {
                    let u = choose|u: int| 0 <= u < tail.len() && tail[u] == rest[j - 1];
                    assert(s[u + 1] == rest[j - 1]);
                    assert(lex_le(s[0].label, s[u + 1].label));
                }
            } else {
                assert(r[i] == rest[i - 1]);
                assert(r[j] == rest[j - 1]);
            }
        }
    } else {
        lemma_lex_le_total(s[0].label, x.label);
        assert(lex_le(x.label, s[0].label));
        assert forall|i: int, j: int| 0 <= i < j < r.len() implies lex_le(
            #[trigger] r[i].label,
            #[trigger] r[j].label,
        ) by {
            if i == 0 {
                assert(r[j] == s[j - 1]);
                if j - 1 == 0 {
                } else {
                    assert(lex_le(s[0].label, s[j - 1].label));
                    lemma_lex_le_trans(x.label, s[0].label, s[j - 1].label);
                }
            } else {
                assert(r[i] == s[i - 1]);
                assert(r[j] == s[j - 1]);
            }
        }
    }
}

/// Law: the label-order policy really sorts — the entries the serializer
/// renders under that policy ascend by label.
pub proof fn lemma_isort_sorted(s: Seq<SerEntry>)
    ensures
        sorted_by_label(isort(s)),
    decreases s.len(),
{
    if s.len() > 0 {
        lemma_isort_sorted(s.drop_last());
        lemma_insert_sorted_sorted(s.last(), isort(s.drop_last()));
    }
}

/// The insertion step keeps exactly the old entries plus the new one.
proof fn lemma_insert_sorted_multiset(x: SerEntry, s: Seq<SerEntry>)
    ensures
        insert_sorted(x, s).to_multiset() == s.to_multiset().insert(x),
    decreases s.len(),
{
    broadcast use vstd::seq_lib::group_to_multiset_ensures;
    broadcast use vstd::multiset::group_multiset_axioms;

    if s.len() == 0 {
        assert(seq![x] =~= Seq::<SerEntry>::empty().push(x));
        assert(s =~= Seq::<SerEntry>::empty());
    } else if lex_le(s[0].label, x.label) {
        let tail = s.drop_first();
        lemma_insert_sorted_multiset(x, tail);
        vstd::seq_lib::lemma_multiset_commutative(seq![s[0]], insert_sorted(x, tail));
        vstd::seq_lib::lemma_multiset_commutative(seq![s[0]], tail);
        assert(s =~= seq![s[0]] + tail);
        assert(seq![s[0]].to_multiset().add(tail.to_multiset().insert(x)) =~= (seq![
            s[0],
        ].to_multiset().add(tail.to_multiset())).insert(x));
    } else {
        vstd::seq_lib::lemma_multiset_commutative(seq![x], s);
        assert(seq![x] =~= Seq::<SerEntry>::empty().push(x));
        assert(seq![x].to_multiset() =~= Multiset::<SerEntry>::empty().insert(x));
        assert(Multiset::<SerEntry>::empty().insert(x).add(s.to_multiset()) =~= s.to_multiset().insert(
            x,
        ));
    }
}

/// Law: the label-order sort is a permutation — it loses no vertex entry
/// and invents none.
pub proof fn lemma_isort_permutes(s: Seq<SerEntry>)
    ensures
        isort(s).to_multiset() == s.to_multiset(),
    decreases s.len(),
{
    broadcast use vstd::seq_lib::group_to_multiset_ensures;

    if s.len() > 0 {
        lemma_isort_permutes(s.drop_last());
        lemma_insert_sorted_multiset(s.last(), isort(s.drop_last()));
        assert(s =~= s.drop_last().push(s.last()));
    }
}

/// Law: serialization is a pure projection — serializing the same graph
/// state twice without mutation yields identical text.
pub proof fn lemma_serialize_deterministic(
    g: Seq<VertexModel>,
    order: Order,
    s1: Seq<char>,
    s2: Seq<char>,
)
    requires
        s1 == serialize_spec(g, order),
        s2 == serialize_spec(g, order),
    ensures
        s1 == s2,
{
}

/// Joining one more line appends a separator and the line (or is the line
/// itself when there was nothing yet).
proof fn lemma_join_push(lines: Seq<Seq<char>>, sep: Seq<char>, l: Seq<char>)
    ensures
        join(lines.push(l), sep) == if lines.len() == 0 {
            l
        } else {
            join(lines, sep) + sep + l
        },
    decreases lines.len(),
{
    if lines.len() == 0 {
        assert(lines.push(l)[0] == l);
    } else if lines.len() == 1 {
        assert(lines.push(l).drop_first() =~= lines.drop_first().push(l));
        assert(lines.drop_first().push(l) =~= seq![l]);
        assert(join(seq![l], sep) == l);
        assert(lines.push(l)[0] == lines[0]);
    } else {
        assert(lines.push(l).drop_first() =~= lines.drop_first().push(l));
        lemma_join_push(lines.drop_first(), sep, l);
        assert(lines.push(l)[0] == lines[0]);
        assert(lines[0] + sep + (join(lines.drop_first(), sep) + sep + l) =~= (lines[0] + sep
            + join(lines.drop_first(), sep)) + sep + l);
    }
}

/// Where the scan of a sorted sequence stops, the insertion happens.
proof fn lemma_insert_sorted_at(x: SerEntry, s: Seq<SerEntry>, pos: int)
    requires
        0 <= pos <= s.len(),
        forall|j: int| 0 <= j < pos ==> lex_le(#[trigger] s[j].label, x.label),
        pos < s.len() ==> !lex_le(s[pos].label, x.label),
    ensures
        insert_sorted(x, s) == s.subrange(0, pos).push(x) + s.subrange(pos, s.len() as int),
    decreases pos,
{
    if pos == 0 {
        if s.len() == 0 {
            assert(insert_sorted(x, s) =~= s.subrange(0, 0).push(x) + s.subrange(0, 0));
        } else {
            assert(insert_sorted(x, s) == seq![x] + s);
            assert(seq![x] + s =~= s.subrange(0, 0).push(x) + s.subrange(0, s.len() as int));
        }
    } else {
        assert(lex_le(s[0].label, x.label));
        let tail = s.drop_first();
        assert forall|j: int| 0 <= j < pos - 1 implies lex_le(#[trigger] tail[j].label, x.label) by {
            assert(tail[j] == s[j + 1]);
        }
        assert(pos - 1 < tail.len() ==> !lex_le(tail[pos - 1].label, x.label));
        lemma_insert_sorted_at(x, tail, pos - 1);
        assert(seq![s[0]] + (tail.subrange(0, pos - 1).push(x) + tail.subrange(
            pos - 1,
            tail.len() as int,
        )) =~= s.subrange(0, pos).push(x) + s.subrange(pos, s.len() as int));
    }
}

/// What the serializer materializes for one vertex: the label and the
/// target labels of its outgoing edges.
pub struct Entry {
    pub label: String,
    pub targets: Vec<String>,
}

impl View for Entry {
    type V = SerEntry;

    open spec fn view(&self) -> SerEntry {
        SerEntry {
            label: self.label@,
            targets: self.targets@.map_values(|s: String| s@),
        }
    }
}

/// Exact lexicographic comparison of two labels by character code.
pub fn lex_le_str(a: &str, b: &str) -> (r: bool)
    ensures
        r == lex_le(a@, b@),
{
    let la = a.unicode_len();
    let lb = b.unicode_len();
    let mut i: usize = 0;
    proof {
        assert(a@.skip(0) =~= a@);
        assert(b@.skip(0) =~= b@);
    }
    while i < la && i < lb
        invariant
            i <= la,
            i <= lb,
            la == a@.len(),
            lb == b@.len(),
            lex_le(a@, b@) == lex_le(a@.skip(i as int), b@.skip(i as int)),
        decreases la - i,
    {
        let ca = a.get_char(i);
        let cb = b.get_char(i);
        proof {
            assert(a@.skip(i as int)[0] == a@[i as int]);
            assert(b@.skip(i as int)[0] == b@[i as int]);
        }
        if ca != cb {
            return ca < cb;
        }
        proof {
            assert(a@.skip(i as int).drop_first() =~= a@.skip(i + 1));
            assert(b@.skip(i as int).drop_first() =~= b@.skip(i + 1));
        }
        i += 1;
    }
    proof {
        if i >= la {
            assert(a@.skip(i as int).len() == 0);
        } else {
            assert(b@.skip(i as int).len() == 0);
            assert(a@.skip(i as int).len() > 0);
        }
    }
    i >= la
}

/// Builds the serializer's entries from the graph, in storage order.
fn build_entries(g: &Graph) -> (r: Vec<Entry>)
    requires
        graph_wf(g@),
    ensures
        r@.map_values(|e: Entry| e@) == entries_of(g@),
{
    let n = g.vertices.len();
    let mut out: Vec<Entry> = Vec::new();
    proof {
        assert(out@.map_values(|e: Entry| e@) =~= entries_of(g@).take(0));
    }
    let mut i: usize = 0;
    while i < n
        invariant
            i <= n,
            n == g@.len(),
            graph_wf(g@),
            out@.map_values(|e: Entry| e@) == entries_of(g@).take(i as int),
        decreases n - i,
    {
        let ghost target_spec = entries_of(g@)[i as int].targets;
        let m = g.vertices[i].outs.len();
        let mut targets: Vec<String> = Vec::new();
        proof {
            assert(targets@.map_values(|s: String| s@) =~= target_spec.take(0));
        }
        let mut k: usize = 0;
        while k < m
            invariant
                k <= m,
                i < n,
                n == g@.len(),
                graph_wf(g@),
                m == g@[i as int].outs.len(),
                target_spec == entries_of(g@)[i as int].targets,
                targets@.map_values(|s: String| s@) == target_spec.take(k as int),
            decreases m - k,
        {
            let t = g.vertices[i].outs[k];
            proof {
                assert(vertex_wf(g@[i as int], g@.len() as int));
                assert(g@[i as int].outs[k as int] == t as int);
                assert(0 <= t < n);
            }
            let ghost prev = targets@;
            targets.push(g.vertices[t].label.clone());
            proof {
                assert(target_spec[k as int] == g@[t as int].label);
                assert(targets@.map_values(|s: String| s@) =~= prev.map_values(
                    |s: String| s@,
                ).push(target_spec[k as int]));
                assert(target_spec.take(k + 1) =~= target_spec.take(k as int).push(
                    target_spec[k as int],
                ));
            }
            k += 1;
        }
        let ghost prev_out = out@;
        let e = Entry { label: g.vertices[i].label.clone(), targets };
        proof {
            assert(target_spec.take(m as int) =~= target_spec);
            assert(e@.label == entries_of(g@)[i as int].label);
            assert(e@ == entries_of(g@)[i as int]);
        }
        out.push(e);
        proof {
            assert(out@.map_values(|e2: Entry| e2@) =~= prev_out.map_values(|e2: Entry| e2@).push(
                entries_of(g@)[i as int],
            ));
            assert(entries_of(g@).take(i + 1) =~= entries_of(g@).take(i as int).push(
                entries_of(g@)[i as int],
            ));
        }
        i += 1;
    }
    proof {
        assert(entries_of(g@).take(n as int) =~= entries_of(g@));
    }
    out
}

/// The insertion point for a label in an already sorted run: the first
/// position whose label is not less than or equal to the new one.
fn insert_pos(sorted: &Vec<Entry>, lab: &str) -> (pos: usize)
    ensures
        pos <= sorted@.len(),
        forall|j: int| 0 <= j < pos ==> lex_le((#[trigger] sorted@[j])@.label, lab@),
        (pos as int) < sorted@.len() ==> !lex_le(sorted@[pos as int]@.label, lab@),
{
    let mut pos: usize = 0;
    while pos < sorted.len()
        invariant
            pos <= sorted@.len(),
            forall|j: int| 0 <= j < pos ==> lex_le((#[trigger] sorted@[j])@.label, lab@),
        decreases sorted@.len() - pos,
    {
        if !lex_le_str(sorted[pos].label.as_str(), lab) {
            return pos;
        }
        pos += 1;
    }
    pos
}

/// Stable insertion sort of the entries by label.
fn sort_entries(entries: Vec<Entry>) -> (r: Vec<Entry>)
    ensures
        r@.map_values(|e: Entry| e@) == isort(entries@.map_values(|e: Entry| e@)),
{
    let ghost orig = entries@.map_values(|e: Entry| e@);
    let mut rest = entries;
    let n = rest.len();
    let mut sorted: Vec<Entry> = Vec::new();
    let mut i: usize = 0;
    proof {
        assert(rest@.map_values(|e: Entry| e@) =~= orig.skip(0));
        assert(sorted@.map_values(|e: Entry| e@) =~= isort(orig.take(0)));
    }
    while rest.len() > 0
        invariant
            i <= n,
            orig.len() == n,
            i as int + rest@.len() == n as int,
            rest@.map_values(|e: Entry| e@) == orig.skip(i as int),
            sorted@.map_values(|e: Entry| e@) == isort(orig.take(i as int)),
        decreases rest@.len(),
    {
        let ghost sv = sorted@.map_values(|e: Entry| e@);
        let ghost rv = rest@;
        let e = rest.remove(0);
        proof {
            assert(i < n);
            assert(e == rv[0]);
            assert(rv.map_values(|e2: Entry| e2@)[0] == rv[0]@);
            assert(orig.skip(i as int).len() == n - i);
            assert(orig.skip(i as int)[0] == orig[0 + i as int]);
            assert(e@ == orig[i as int]);
            assert(rest@.map_values(|e2: Entry| e2@) =~= rv.map_values(|e2: Entry| e2@).skip(1));
            assert(rv.map_values(|e2: Entry| e2@).skip(1) =~= orig.skip(i + 1));
        }
        let pos = insert_pos(&sorted, e.label.as_str());
        let ghost ev = e@;
        proof {
            assert forall|j: int| 0 <= j < pos implies lex_le(#[trigger] sv[j].label, ev.label) by {
                assert(sv[j] == sorted@[j]@);
            }
            if (pos as int) < sv.len() {
                assert(sv[pos as int] == sorted@[pos as int]@);
            }
        }
        sorted.insert(pos, e);
        proof {
            lemma_insert_sorted_at(ev, sv, pos as int);
            assert(sorted@.map_values(|e2: Entry| e2@) =~= sv.subrange(0, pos as int).push(ev)
                + sv.subrange(pos as int, sv.len() as int));
            assert(orig.take(i + 1).drop_last() =~= orig.take(i as int));
            assert(orig.take(i + 1).last() == orig[i as int]);
            assert(sorted@.map_values(|e2: Entry| e2@) == isort(orig.take(i + 1)));
        }
        i += 1;
    }
    proof {
        assert(orig.take(i as int) =~= orig);
    }
    sorted
}

/// Joins the lines with single newlines, no trailing newline.
fn join_lines(lines: &Vec<String>) -> (r: String)
    ensures
        r@ == join(lines@.map_values(|s: String| s@), nl()),
{
    let ghost lv = lines@.map_values(|s: String| s@);
    let mut r = String::new();
    proof {
        assert(r@ =~= join(lv.take(0), nl()));
    }
    let mut i: usize = 0;
    while i < lines.len()
        invariant
            i <= lines@.len(),
            lv == lines@.map_values(|s: String| s@),
            r@ == join(lv.take(i as int), nl()),
        decreases lines@.len() - i,
    {
        let ghost prev = r@;
        if i > 0 {
            r.append("\n");
        }
        r.append(lines[i].as_str());
        proof {
            reveal_strlit("\n");
            assert("\n"@ =~= nl());
            assert(lv.take(i + 1) =~= lv.take(i as int).push(lv[i as int]));
            lemma_join_push(lv.take(i as int), nl(), lv[i as int]);
            if i == 0 {
                assert(prev =~= Seq::<char>::empty());
                assert(r@ =~= lv[0]);
                assert(r@ == join(lv.take(1), nl()));
            } else {
                assert(r@ == prev + nl() + lv[i as int]);
            }
        }
        i += 1;
    }
    proof {
        assert(lv.take(lines@.len() as int) =~= lv);
    }
    r
}

/// Renders the already ordered entries to text.
fn render_entries(entries: &Vec<Entry>) -> (r: String)
    ensures
        r@ == render(entries@.map_values(|e: Entry| e@)),
{
    let ghost evs = entries@.map_values(|e: Entry| e@);
    let n = entries.len();
    // declaration lines
    let mut decl_vec: Vec<String> = Vec::new();
    proof {
        assert(decl_vec@.map_values(|s: String| s@) =~= decl_lines(evs).take(0));
    }
    let mut i: usize = 0;
    while i < n
        invariant
            i <= n,
            n == entries@.len(),
            evs == entries@.map_values(|e: Entry| e@),
            decl_vec@.map_values(|s: String| s@) == decl_lines(evs).take(i as int),
        decreases n - i,
    {
        let ghost prev = decl_vec@;
        let mut line = entries[i].label.clone();
        line.append(";");
        proof {
            reveal_strlit(";");
            assert(";"@ =~= semi());
            assert(line@ == decl_lines(evs)[i as int]);
        }
        decl_vec.push(line);
        proof {
            assert(decl_vec@.map_values(|s: String| s@) =~= prev.map_values(|s: String| s@).push(
                decl_lines(evs)[i as int],
            ));
            assert(decl_lines(evs).take(i + 1) =~= decl_lines(evs).take(i as int).push(
                decl_lines(evs)[i as int],
            ));
        }
        i += 1;
    }
    proof {
        assert(decl_lines(evs).take(n as int) =~= decl_lines(evs));
    }
    let decls = join_lines(&decl_vec);
    // connection lines
    let mut con_vec: Vec<String> = Vec::new();
    proof {
        assert(evs.take(0).map_values(|e: SerEntry| entry_con_lines(e)) =~= Seq::<
            Seq<Seq<char>>,
        >::empty());
        assert(con_vec@.map_values(|s: String| s@) =~= con_lines(evs.take(0)));
    }
    let mut i2: usize = 0;
    while i2 < n
        invariant
            i2 <= n,
            n == entries@.len(),
            evs == entries@.map_values(|e: Entry| e@),
            con_vec@.map_values(|s: String| s@) == con_lines(evs.take(i2 as int)),
        decreases n - i2,
    {
        let ghost e_lines = entry_con_lines(evs[i2 as int]);
        let m = entries[i2].targets.len();
        let mut k: usize = 0;
        proof {
            assert(con_vec@.map_values(|s: String| s@) =~= con_lines(evs.take(i2 as int))
                + e_lines.take(0));
        }
        while k < m
            invariant
                k <= m,
                i2 < n,
                n == entries@.len(),
                evs == entries@.map_values(|e: Entry| e@),
                m == evs[i2 as int].targets.len(),
                e_lines == entry_con_lines(evs[i2 as int]),
                con_vec@.map_values(|s: String| s@) == con_lines(evs.take(i2 as int))
                    + e_lines.take(k as int),
            decreases m - k,
        {
            let ghost prev_con = con_vec@;
            let mut line = entries[i2].label.clone();
            line.append(" => ");
            line.append(entries[i2].targets[k].as_str());
            line.append(";");
            proof {
                reveal_strlit(" => ");
                reveal_strlit(";");
                assert(" => "@ =~= arrow());
                assert(";"@ =~= semi());
                assert(evs[i2 as int].targets[k as int] == entries@[i2 as int].targets@[k as int]@);
                assert(line@ == e_lines[k as int]);
            }
            con_vec.push(line);
            proof {
                assert(con_vec@.map_values(|s: String| s@) =~= prev_con.map_values(
                    |s: String| s@,
                ).push(e_lines[k as int]));
                assert(con_lines(evs.take(i2 as int)) + e_lines.take(k + 1) =~= (con_lines(
                    evs.take(i2 as int),
                ) + e_lines.take(k as int)).push(e_lines[k as int]));
            }
            k += 1;
        }
        proof {
            assert(e_lines.take(m as int) =~= e_lines);
            let mapped = evs.take(i2 as int).map_values(|e: SerEntry| entry_con_lines(e));
            assert(evs.take(i2 + 1).map_values(|e: SerEntry| entry_con_lines(e)) =~= mapped.push(
                e_lines,
            ));
            mapped.lemma_flatten_push(e_lines);
            assert(con_lines(evs.take(i2 + 1)) == mapped.flatten() + e_lines);
            assert(con_vec@.map_values(|s: String| s@) == con_lines(evs.take(i2 + 1)));
        }
        i2 += 1;
    }
    proof {
        assert(evs.take(n as int) =~= evs);
    }
    let cons = join_lines(&con_vec);
    let mut out = decls;
    out.append("\n\n");
    out.append(cons.as_str());
    proof {
        reveal_strlit("\n\n");
        assert("\n\n"@ =~= nl() + nl());
        assert(out@ =~= render(evs));
    }
    out
}

/// Serializes the graph: declarations, a blank line, connections, in the
/// requested enumeration order.
pub fn serialize(g: &Graph, order: Order) -> (r: String)
    requires
        graph_wf(g@),
    ensures
        r@ == serialize_spec(g@, order),
{
    let entries = build_entries(g);
    match order {
        Order::Insertion => render_entries(&entries),
        Order::Label => {
            let sorted = sort_entries(entries);
            render_entries(&sorted)
        },
    }
}

} // verus!
