//! What it means for a graph to account for the calls in the code: every call of an
//! expanded function is an edge, and every edge is such a call.

use crate::calls::{
    callee_at, calls, fn_names_among, followup_of, identity_of, sites_of, defined_by, Origin,
};
use crate::graph::{lemma_extends_keeps, lemma_with_edge_extends, GraphView};
use crate::provider::{
    children_of, file_len, holds_file, kind_of, root_of, span_of, Definition, Node, NodeKind,
};
use crate::syntax::fn_name_of;
use ra_ap_ide::{Analysis, FileId};
use vstd::prelude::*;

verus! {

/// Whether the graph holds what the call with the callee `site`, in the function at node
/// `src`, leads to: a node for the callee and an edge to it, a callee of a kind that a
/// callee can have, and, where it is a function, that function among the expanded.
pub open spec fn site_recorded(
    an: Analysis,
    g: GraphView,
    expanded: Set<usize>,
    src: int,
    file: FileId,
    site: Node,
) -> bool {
    match callee_at(an, file, site) {
        Some(callee) => {
            &&& g.contains(callee.identity)
            &&& g.has_edge(src, g.index_of(callee.identity))
            &&& !(followup_of(kind_of(callee.origin.node)) is Unexpected)
            &&& kind_of(callee.origin.node) == NodeKind::Fn ==> expanded.contains(
                g.index_of(callee.identity) as usize,
            )
        },
        None => true,
    }
}

/// Whether the graph holds every call in the body of the function expanded at node `u`.
pub open spec fn node_complete(
    an: Analysis,
    g: GraphView,
    origins: Map<usize, Origin>,
    u: usize,
) -> bool {
    forall|k: int|
        0 <= k < sites_of(origins[u]).len() ==> site_recorded(
            an,
            g,
            origins.dom(),
            u as int,
            origins[u].file,
            #[trigger] sites_of(origins[u])[k],
        )
}

/// Whether the edge from node `u` to node `v` stands for a call: `u` is an expanded
/// function, and a call in its body leads to the identity of `v`.
pub open spec fn edge_justified(
    an: Analysis,
    g: GraphView,
    origins: Map<usize, Origin>,
    u: int,
    v: int,
) -> bool {
    &&& 0 <= u <= usize::MAX
    &&& origins.dom().contains(u as usize)
    &&& 0 <= v < g.len()
    &&& exists|k: int|
        0 <= k < sites_of(origins[u as usize]).len() && calls(
            an,
            origins[u as usize].file,
            #[trigger] sites_of(origins[u as usize])[k],
            g.labels[v],
        )
}

/// Whether every edge of the graph stands for a call.
pub open spec fn sound(an: Analysis, g: GraphView, origins: Map<usize, Origin>) -> bool {
    forall|u: int, v: int| #[trigger] g.has_edge(u, v) ==> edge_justified(an, g, origins, u, v)
}

/// Whether the function is one that the walk can search: its file is in the snapshot and
/// holds it.
pub open spec fn expandable(an: Analysis, origin: Origin) -> bool {
    &&& holds_file(an, origin.file)
    &&& span_of(origin.node).1 <= file_len(an, origin.file)
    &&& kind_of(origin.node) == NodeKind::Fn
}

/// Whether the function is defined at the top of its file under this name.
pub open spec fn top_level_fn(an: Analysis, origin: Origin, identity: Seq<char>) -> bool {
    &&& children_of(root_of(an, origin.file)).contains(origin.node)
    &&& kind_of(origin.node) == NodeKind::Fn
    &&& fn_name_of(origin.node) == Some(identity)
}

/// Whether the identity is one of the function: its name at the top of its file, or the
/// identity of a definition that it is the node of.
pub open spec fn named(an: Analysis, origin: Origin, identity: Seq<char>) -> bool {
    ||| top_level_fn(an, origin, identity)
    ||| exists|target: Definition| #[trigger]
        defined_by(an, target, origin) && identity_of(target) == identity
}

/// Whether the graph and the functions expanded at its nodes fit together: each expanded
/// node is a node of the graph and bears an identity of its function, and every edge
/// stands for a call.
pub open spec fn consistent(an: Analysis, g: GraphView, origins: Map<usize, Origin>) -> bool {
    &&& g.well_formed()
    &&& origins.dom().finite()
    &&& forall|u: usize| #[trigger]
        origins.dom().contains(u) ==> u < g.len() && expandable(an, origins[u]) && named(
            an,
            origins[u],
            g.labels[u as int],
        )
    &&& sound(an, g, origins)
}

/// Whether `later` holds every expanded function of `origins`, at the same node.
pub open spec fn kept_in(origins: Map<usize, Origin>, later: Map<usize, Origin>) -> bool {
    forall|u: usize| #[trigger]
        origins.dom().contains(u) ==> later.dom().contains(u) && later[u] == origins[u]
}

/// Whether some node of the graph calls node `v`.
pub open spec fn is_called(g: GraphView, v: int) -> bool {
    exists|u: int| #[trigger] g.has_edge(u, v)
}

/// Whether the graph went on from `before` to `after` as it does in a walk: nothing was
/// lost, and every new node is called by some node.
pub open spec fn advanced_graph(before: GraphView, after: GraphView) -> bool {
    &&& after.extends(before)
    &&& forall|v: int| before.len() <= v < after.len() ==> #[trigger] is_called(after, v)
}

/// Whether the graph is the call graph of the crate with the given root file, with
/// `origins` as the functions that its expanded nodes stand for: every function named at
/// the top of the root file is a node and is expanded; every call in the body of an
/// expanded function that leads to a definition is an edge, to a node that is expanded
/// too where the definition is a function; every edge is such a call; and every node is
/// such a function or such a callee.
pub open spec fn explains(
    an: Analysis,
    root_file: FileId,
    g: GraphView,
    origins: Map<usize, Origin>,
) -> bool {
    let names = fn_names_among(children_of(root_of(an, root_file)));
    &&& consistent(an, g, origins)
    &&& forall|k: int|
        0 <= k < names.len() ==> g.contains(#[trigger] names[k]) && origins.dom().contains(
            g.index_of(names[k]) as usize,
        )
    &&& forall|u: usize| #[trigger]
        origins.dom().contains(u) ==> node_complete(an, g, origins, u)
    &&& forall|v: int|
        0 <= v < g.len() ==> names.contains(#[trigger] g.labels[v]) || is_called(g, v)
}

/// A recorded call stays recorded when the graph and the set of expanded nodes grow.
pub proof fn lemma_site_recorded_stable(
    an: Analysis,
    before: GraphView,
    after: GraphView,
    expanded: Set<usize>,
    later: Set<usize>,
    src: int,
    file: FileId,
    site: Node,
)
    requires
        after.well_formed(),
        after.extends(before),
        expanded.subset_of(later),
        site_recorded(an, before, expanded, src, file, site),
    ensures
        site_recorded(an, after, later, src, file, site),
{
    if let Some(callee) = callee_at(an, file, site) {
        lemma_extends_keeps(before, after, callee.identity);
        assert(before.has_edge(src, before.index_of(callee.identity)));
    }
}

/// A node whose calls are all recorded stays so when the graph grows and more nodes are
/// expanded.
pub proof fn lemma_complete_stable(
    an: Analysis,
    before: GraphView,
    after: GraphView,
    origins: Map<usize, Origin>,
    later: Map<usize, Origin>,
    u: usize,
)
    requires
        after.well_formed(),
        after.extends(before),
        kept_in(origins, later),
        origins.dom().contains(u),
        node_complete(an, before, origins, u),
    ensures
        node_complete(an, after, later, u),
{
    assert(later[u] == origins[u]);
    assert forall|k: int| 0 <= k < sites_of(later[u]).len() implies site_recorded(
        an,
        after,
        later.dom(),
        u as int,
        later[u].file,
        #[trigger] sites_of(later[u])[k],
    ) by {
        lemma_site_recorded_stable(
            an,
            before,
            after,
            origins.dom(),
            later.dom(),
            u as int,
            origins[u].file,
            sites_of(origins[u])[k],
        );
    }
}

/// The edges of a graph stay justified when the graph grows without new edges and more
/// nodes are expanded.
pub proof fn lemma_sound_stable(
    an: Analysis,
    before: GraphView,
    after: GraphView,
    origins: Map<usize, Origin>,
    later: Map<usize, Origin>,
)
    requires
        before.well_formed(),
        after.extends(before),
        forall|u: int, v: int| after.has_edge(u, v) ==> before.has_edge(u, v),
        kept_in(origins, later),
        sound(an, before, origins),
    ensures
        sound(an, after, later),
{
    assert forall|u: int, v: int| #[trigger] after.has_edge(u, v) implies edge_justified(
        an,
        after,
        later,
        u,
        v,
    ) by {
        assert(before.has_edge(u, v));
        assert(edge_justified(an, before, origins, u, v));
        assert(later[u as usize] == origins[u as usize]);
        let k = choose|k: int|
            0 <= k < sites_of(origins[u as usize]).len() && calls(
                an,
                origins[u as usize].file,
                #[trigger] sites_of(origins[u as usize])[k],
                before.labels[v],
            );
        assert(calls(an, later[u as usize].file, sites_of(later[u as usize])[k], after.labels[v]));
    }
}

/// The edges of a graph stay justified when an edge is added for a call in the body of
/// the function expanded at its source.
pub proof fn lemma_sound_with_edge(
    an: Analysis,
    g: GraphView,
    origins: Map<usize, Origin>,
    src: usize,
    k: int,
    identity: Seq<char>,
)
    requires
        g.well_formed(),
        g.len() <= usize::MAX,
        sound(an, g, origins),
        origins.dom().contains(src),
        src < g.len(),
        0 <= k < sites_of(origins[src]).len(),
        calls(an, origins[src].file, sites_of(origins[src])[k], identity),
    ensures
        sound(an, g.with_edge(src as int, identity), origins),
{
    lemma_with_edge_extends(g, src as int, identity);
    let after = g.with_edge(src as int, identity);
    assert forall|u: int, v: int| #[trigger] after.has_edge(u, v) implies edge_justified(
        an,
        after,
        origins,
        u,
        v,
    ) by {
        if g.has_edge(u, v) {
            assert(edge_justified(an, g, origins, u, v));
            let j = choose|j: int|
                0 <= j < sites_of(origins[u as usize]).len() && calls(
                    an,
                    origins[u as usize].file,
                    #[trigger] sites_of(origins[u as usize])[j],
                    g.labels[v],
                );
            assert(calls(
                an,
                origins[u as usize].file,
                sites_of(origins[u as usize])[j],
                after.labels[v],
            ));
        } else {
            assert(u == src);
            assert(after.labels[v] == identity);
            assert(calls(an, origins[src].file, sites_of(origins[src])[k], after.labels[v]));
        }
    }
}

} // verus!
