//! What the construction of the graph reads off a syntax tree: the name of a function, its
//! body, and the callees of the calls in it.

use crate::provider::{
    children_of, descendants_of, kind_of, node_children, node_descendants, node_kind, node_text,
    span_of, text_of, within, Node, NodeKind,
};
use vstd::prelude::*;

verus! {

/// The first of the nodes that is of the given kind.
pub open spec fn first_of_kind(nodes: Seq<Node>, kind: NodeKind) -> Option<Node>
    decreases nodes.len(),
{
    if nodes.len() == 0 {
        None
    } else if kind_of(nodes[0]) == kind {
        Some(nodes[0])
    } else {
        first_of_kind(nodes.drop_first(), kind)
    }
}

/// The name of a function: the text of its first child that is a name.
pub open spec fn fn_name_of(fn_node: Node) -> Option<Seq<char>> {
    match first_of_kind(children_of(fn_node), NodeKind::Name) {
        Some(name) => Some(text_of(name)),
        None => None,
    }
}

/// The body of a function: its first child that is a block.
pub open spec fn body_of(fn_node: Node) -> Option<Node> {
    first_of_kind(children_of(fn_node), NodeKind::BlockExpr)
}

/// The callee of a call: its first child that is a path. A call of anything else, such as
/// a closure or what another call returned, has none.
pub open spec fn callee_of(call: Node) -> Option<Node> {
    first_of_kind(children_of(call), NodeKind::PathExpr)
}

/// The callees of the calls among the nodes, in the order of the nodes; calls without a
/// callee are passed over.
pub open spec fn callees_among(nodes: Seq<Node>) -> Seq<Node>
    decreases nodes.len(),
{
    if nodes.len() == 0 {
        Seq::empty()
    } else {
        let before = callees_among(nodes.drop_last());
        let node = nodes.last();
        if kind_of(node) == NodeKind::CallExpr && callee_of(node) is Some {
            before.push(callee_of(node)->0)
        } else {
            before
        }
    }
}

/// The callees of all calls in the body of a function, in pre-order; `None` for a function
/// without a body.
pub open spec fn call_sites_of(fn_node: Node) -> Option<Seq<Node>> {
    match body_of(fn_node) {
        Some(body) => Some(callees_among(descendants_of(body))),
        None => None,
    }
}

/// The strings as texts.
pub open spec fn texts(strings: Seq<String>) -> Seq<Seq<char>> {
    Seq::new(strings.len(), |i: int| strings[i]@)
}

/// The texts of the calls among the nodes that have no callee, in the order of the nodes.
pub open spec fn loose_among(nodes: Seq<Node>) -> Seq<Seq<char>>
    decreases nodes.len(),
{
    if nodes.len() == 0 {
        Seq::empty()
    } else {
        let before = loose_among(nodes.drop_last());
        let node = nodes.last();
        if kind_of(node) == NodeKind::CallExpr && callee_of(node) is None {
            before.push(text_of(node))
        } else {
            before
        }
    }
}

/// The texts of the calls in the body of a function that have no callee, in pre-order; none
/// for a function without a body.
pub open spec fn loose_calls_of(fn_node: Node) -> Seq<Seq<char>> {
    match body_of(fn_node) {
        Some(body) => loose_among(descendants_of(body)),
        None => Seq::empty(),
    }
}

/// The first node of a kind is found behind any nodes of other kinds.
proof fn lemma_first_of_kind_skip(nodes: Seq<Node>, kind: NodeKind, i: int)
    requires
        0 <= i <= nodes.len(),
        forall|j: int| 0 <= j < i ==> kind_of(nodes[j]) != kind,
    ensures
        first_of_kind(nodes, kind) == first_of_kind(nodes.skip(i), kind),
    decreases i,
{
    if i > 0 {
        lemma_first_of_kind_skip(nodes, kind, i - 1);
        let rest = nodes.skip(i - 1);
        assert(rest[0] == nodes[i - 1]);
        assert(rest.drop_first() =~= nodes.skip(i));
    } else {
        assert(nodes.skip(0) =~= nodes);
    }
}

/// The first child of the node that is of the given kind. It lies within the node.
pub(crate) fn find_child(node: &Node, kind: NodeKind) -> (found: Option<Node>)
    ensures
        found == first_of_kind(children_of(*node), kind),
        found matches Some(child) ==> within(span_of(child), span_of(*node)),
{
    let mut children = node_children(node);
    let mut i: usize = 0;
    while i < children.len()
        invariant
            i <= children.len(),
            children@ == children_of(*node),
            forall|j: int| 0 <= j < i ==> kind_of(children[j]) != kind,
            forall|j: int|
                0 <= j < children.len() ==> within(
                    span_of(#[trigger] children[j]),
                    span_of(*node),
                ),
        decreases children.len() - i,
    {
        if node_kind(&children[i]) == kind {
            proof {
                lemma_first_of_kind_skip(children@, kind, i as int);
                assert(children@.skip(i as int)[0] == children[i as int]);
            }
            return Some(children.swap_remove(i));
        }
        i += 1;
    }
    proof {
        lemma_first_of_kind_skip(children@, kind, children.len() as int);
    }
    None
}

/// The name of a function, if its node has one.
pub(crate) fn get_fn_name(fn_node: &Node) -> (name: Option<String>)
    ensures
        name is Some <==> fn_name_of(*fn_node) is Some,
        name matches Some(text) ==> fn_name_of(*fn_node) == Some(text@),
{
    match find_child(fn_node, NodeKind::Name) {
        Some(name) => Some(node_text(&name)),
        None => None,
    }
}

/// The callees of all calls in the body of a function, in pre-order; `None` for a function
/// without a body. Each callee lies within the function.
pub(crate) fn call_sites(fn_node: &Node) -> (sites: Option<Vec<Node>>)
    ensures
        sites is Some <==> call_sites_of(*fn_node) is Some,
        sites matches Some(callees) ==> call_sites_of(*fn_node) == Some(callees@),
        sites matches Some(callees) ==> forall|i: int|
            0 <= i < callees.len() ==> within(span_of(#[trigger] callees[i]), span_of(*fn_node)),
{
    let Some(block) = find_child(fn_node, NodeKind::BlockExpr) else {
        return None;
    };
    let nodes = node_descendants(&block);
    let mut callees: Vec<Node> = Vec::new();
    let mut i: usize = 0;
    while i < nodes.len()
        invariant
            i <= nodes.len(),
            nodes@ == descendants_of(block),
            within(span_of(block), span_of(*fn_node)),
            callees@ == callees_among(nodes@.take(i as int)),
            forall|j: int|
                0 <= j < nodes.len() ==> within(span_of(#[trigger] nodes[j]), span_of(block)),
            forall|j: int|
                0 <= j < callees.len() ==> within(
                    span_of(#[trigger] callees[j]),
                    span_of(*fn_node),
                ),
        decreases nodes.len() - i,
    {
        proof {
            let upto = nodes@.take(i + 1);
            assert(upto.drop_last() =~= nodes@.take(i as int));
            assert(upto.last() == nodes[i as int]);
        }
        if node_kind(&nodes[i]) == NodeKind::CallExpr {
            if let Some(path_expr) = find_child(&nodes[i], NodeKind::PathExpr) {
                callees.push(path_expr);
            }
        }
        i += 1;
    }
    proof {
        assert(nodes@.take(nodes.len() as int) =~= nodes@);
    }
    Some(callees)
}

/// The texts of the calls in the body of a function that have no callee, in pre-order.
pub(crate) fn loose_calls(fn_node: &Node) -> (calls: Vec<String>)
    ensures
        texts(calls@) == loose_calls_of(*fn_node),
{
    let mut calls: Vec<String> = Vec::new();
    let Some(block) = find_child(fn_node, NodeKind::BlockExpr) else {
        assert(texts(calls@) =~= Seq::empty());
        return calls;
    };
    let nodes = node_descendants(&block);
    let mut i: usize = 0;
    assert(texts(calls@) =~= loose_among(nodes@.take(0)));
    while i < nodes.len()
        invariant
            i <= nodes.len(),
            nodes@ == descendants_of(block),
            texts(calls@) == loose_among(nodes@.take(i as int)),
        decreases nodes.len() - i,
    {
        proof {
            let upto = nodes@.take(i + 1);
            assert(upto.drop_last() =~= nodes@.take(i as int));
            assert(upto.last() == nodes[i as int]);
        }
        if node_kind(&nodes[i]) == NodeKind::CallExpr {
            if find_child(&nodes[i], NodeKind::PathExpr).is_none() {
                let ghost before = calls@;
                calls.push(node_text(&nodes[i]));
                assert(texts(calls@) =~= texts(before).push(text_of(nodes[i as int])));
            }
        }
        i += 1;
    }
    proof {
        assert(nodes@.take(nodes.len() as int) =~= nodes@);
    }
    calls
}

} // verus!
