//! The rendering of a call graph as a DOT document: the nodes in ascending order of their
//! identities, then the edges.

use crate::graph::{Graph, GraphView};
use crate::order::{by_identity, nodes_by_identity};
use vstd::prelude::*;
use vstd::string::StringExecFns;

verus! {

/// The decimal digit for a number below ten.
pub open spec fn digit_of(d: nat) -> char {
    if d == 0 {
        '0'
    } else if d == 1 {
        '1'
    } else if d == 2 {
        '2'
    } else if d == 3 {
        '3'
    } else if d == 4 {
        '4'
    } else if d == 5 {
        '5'
    } else if d == 6 {
        '6'
    } else if d == 7 {
        '7'
    } else if d == 8 {
        '8'
    } else {
        '9'
    }
}

/// A number in decimal digits, without leading zeros.
pub open spec fn decimal(n: nat) -> Seq<char>
    decreases n,
{
    if n < 10 {
        seq![digit_of(n)]
    } else {
        decimal(n / 10).push(digit_of(n % 10))
    }
}

/// The line that declares the node at `index` with its identity as its label.
pub open spec fn node_line(index: nat, label: Seq<char>) -> Seq<char> {
    decimal(index) + " [label = \""@ + label + "\"]\n"@
}

/// The line for the edge from node `src` to node `dst`.
pub open spec fn edge_line(src: nat, dst: nat) -> Seq<char> {
    decimal(src) + " -> "@ + decimal(dst) + "\n"@
}

/// The lines of the first `upto` nodes of `order`, in that order.
pub open spec fn node_lines(g: GraphView, order: Seq<usize>, upto: nat) -> Seq<char>
    decreases upto,
{
    if upto == 0 {
        Seq::empty()
    } else {
        node_lines(g, order, (upto - 1) as nat) + node_line(
            order[upto - 1] as nat,
            g.labels[order[upto - 1] as int],
        )
    }
}

/// The lines of the edges from node `src` to the first `upto` nodes, by index of the callee.
pub open spec fn edge_lines_from(g: GraphView, src: nat, upto: nat) -> Seq<char>
    decreases upto,
{
    if upto == 0 {
        Seq::empty()
    } else if g.has_edge(src as int, upto - 1) {
        edge_lines_from(g, src, (upto - 1) as nat) + edge_line(src, (upto - 1) as nat)
    } else {
        edge_lines_from(g, src, (upto - 1) as nat)
    }
}

/// The lines of all edges from the first `upto` nodes, by index of the caller.
pub open spec fn edge_lines(g: GraphView, upto: nat) -> Seq<char>
    decreases upto,
{
    if upto == 0 {
        Seq::empty()
    } else {
        edge_lines(g, (upto - 1) as nat) + edge_lines_from(g, (upto - 1) as nat, g.len())
    }
}

/// The DOT document of a graph: a line for each node in ascending order of the identities,
/// then a line for each edge, by index of the caller and then of the callee.
pub open spec fn render(g: GraphView) -> Seq<char> {
    "digraph g {\n"@ + node_lines(g, by_identity(g.labels, g.len()), g.len()) + edge_lines(
        g,
        g.len(),
    ) + "}\n"@
}

/// The lines for the nodes and the edges depend on the nodes and the edges alone.
proof fn lemma_lines_by_content(
    a: GraphView,
    b: GraphView,
    order: Seq<usize>,
    src: nat,
    upto: nat,
)
    requires
        a.labels == b.labels,
        a.edges == b.edges,
    ensures
        node_lines(a, order, upto) == node_lines(b, order, upto),
        edge_lines_from(a, src, upto) == edge_lines_from(b, src, upto),
        edge_lines(a, upto) == edge_lines(b, upto),
    decreases upto, 1int,
{
    if upto > 0 {
        lemma_lines_by_content(a, b, order, src, (upto - 1) as nat);
        assert(a.has_edge(src as int, upto - 1) == b.has_edge(src as int, upto - 1));
        lemma_row_by_content(a, b, (upto - 1) as nat, a.len());
    }
}

/// The lines for the edges of one node depend on the edges alone.
proof fn lemma_row_by_content(a: GraphView, b: GraphView, src: nat, upto: nat)
    requires
        a.labels == b.labels,
        a.edges == b.edges,
    ensures
        edge_lines_from(a, src, upto) == edge_lines_from(b, src, upto),
    decreases upto, 0int,
{
    if upto > 0 {
        lemma_row_by_content(a, b, src, (upto - 1) as nat);
        assert(a.has_edge(src as int, upto - 1) == b.has_edge(src as int, upto - 1));
    }
}

/// The document is made of the nodes and the edges alone: two graphs with the same nodes
/// under the same indices and the same edges give the same document, character by
/// character.
pub proof fn lemma_render_by_content(a: GraphView, b: GraphView)
    requires
        a.labels == b.labels,
        a.edges == b.edges,
    ensures
        render(a) == render(b),
{
    lemma_lines_by_content(a, b, by_identity(a.labels, a.len()), 0, a.len());
}

/// The decimal digit for a number below ten, as a string.
fn digit_str(d: usize) -> (s: &'static str)
    requires
        d < 10,
    ensures
        s@ == seq![digit_of(d as nat)],
{
    proof {
        reveal_strlit("0");
        reveal_strlit("1");
        reveal_strlit("2");
        reveal_strlit("3");
        reveal_strlit("4");
        reveal_strlit("5");
        reveal_strlit("6");
        reveal_strlit("7");
        reveal_strlit("8");
        reveal_strlit("9");
    }
    let s = if d == 0 {
        "0"
    } else if d == 1 {
        "1"
    } else if d == 2 {
        "2"
    } else if d == 3 {
        "3"
    } else if d == 4 {
        "4"
    } else if d == 5 {
        "5"
    } else if d == 6 {
        "6"
    } else if d == 7 {
        "7"
    } else if d == 8 {
        "8"
    } else {
        "9"
    };
    assert(s@ =~= seq![digit_of(d as nat)]);
    s
}

/// A number in decimal digits.
pub fn decimal_string(n: usize) -> (text: String)
    ensures
        text@ == decimal(n as nat),
    decreases n,
{
    if n < 10 {
        String::from_str(digit_str(n))
    } else {
        let mut text = decimal_string(n / 10);
        let ghost before = text@;
        text.append(digit_str(n % 10));
        assert(text@ =~= before.push(digit_of((n % 10) as nat)));
        text
    }
}

/// The name of the file that the graph is written to.
pub fn construct_filename(graph: &Graph) -> (filename: String)
    ensures
        filename@ == graph@.name + ".dot"@,
{
    let mut filename = graph.name().clone();
    filename.append(".dot");
    filename
}

/// The DOT document of the graph.
pub fn format_to_graphviz(graph: Graph) -> (text: String)
    requires
        graph.wf(),
    ensures
        text@ == render(graph@),
{
    let mut t = String::new();
    t.append("digraph g {\n");
    assert(t@ =~= "digraph g {\n"@);
    let count = graph.node_count();
    let order = nodes_by_identity(&graph);
    let mut place: usize = 0;
    while place < count
        invariant
            place <= count,
            count == graph@.len(),
            order@ == by_identity(graph@.labels, graph@.len()),
            order.len() == count,
            forall|k: int| 0 <= k < order.len() ==> (#[trigger] order[k]) < count,
            t@ == "digraph g {\n"@ + node_lines(graph@, order@, place as nat),
        decreases count - place,
    {
        let ghost before = t@;
        let idx = order[place];
        t.append(decimal_string(idx).as_str());
        t.append(" [label = \"");
        t.append(graph.label(idx).as_str());
        t.append("\"]\n");
        assert(t@ =~= before + node_line(idx as nat, graph@.labels[idx as int]));
        assert(t@ =~= "digraph g {\n"@ + node_lines(graph@, order@, (place + 1) as nat));
        place += 1;
    }
    let ghost head = t@;
    let mut src: usize = 0;
    while src < count
        invariant
            src <= count,
            count == graph@.len(),
            head == "digraph g {\n"@ + node_lines(
                graph@,
                by_identity(graph@.labels, graph@.len()),
                count as nat,
            ),
            t@ == head + edge_lines(graph@, src as nat),
        decreases count - src,
    {
        let ghost row = t@;
        let mut dst: usize = 0;
        while dst < count
            invariant
                dst <= count,
                src < count,
                count == graph@.len(),
                t@ == row + edge_lines_from(graph@, src as nat, dst as nat),
            decreases count - dst,
        {
            if graph.has_edge(src, dst) {
                let ghost before = t@;
                t.append(decimal_string(src).as_str());
                t.append(" -> ");
                t.append(decimal_string(dst).as_str());
                t.append("\n");
                assert(t@ =~= before + edge_line(src as nat, dst as nat));
                assert(t@ =~= row + edge_lines_from(graph@, src as nat, (dst + 1) as nat));
            }
            dst += 1;
        }
        assert(t@ =~= head + edge_lines(graph@, (src + 1) as nat));
        src += 1;
    }
    t.append("}\n");
    assert(t@ =~= render(graph@));
    t
}

} // verus!
