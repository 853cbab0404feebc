//! The calls that a snapshot of the code holds, and the graph that a walk over them ends
//! in.

use crate::graph::GraphView;
use crate::graphviz::render;
use crate::provider::{
    children_of, covering_of, file_len, kind_name_of, kind_of, root_of, span_of, targets_at,
    Definition, Node, NodeKind,
};
use crate::provider::text_of;
use crate::syntax::{call_sites_of, fn_name_of, loose_calls_of};
use ra_ap_ide::{Analysis, FileId};
use vstd::prelude::*;

verus! {

/// Why no graph could be built.
#[derive(Debug, PartialEq, Eq)]
pub enum BuildError {
    /// The analysis abandoned a query: its snapshot is no longer to be relied on.
    Cancelled,
    /// A function at the top of the root file has no name.
    MissingName,
    /// A callee is defined by something that is neither a function nor one of the items
    /// known to call nothing: a node of the kind with this name.
    UnexpectedKind { kind: String },
    /// A callee is said to be defined outside the text of its file.
    RangeOutsideFile,
}

/// [`BuildError`] as mathematics.
pub enum Failure {
    Cancelled,
    MissingName,
    UnexpectedKind { kind: Seq<char> },
    RangeOutsideFile,
}

impl View for BuildError {
    type V = Failure;

    open spec fn view(&self) -> Failure {
        match *self {
            BuildError::Cancelled => Failure::Cancelled,
            BuildError::MissingName => Failure::MissingName,
            BuildError::UnexpectedKind { kind } => Failure::UnexpectedKind { kind: kind@ },
            BuildError::RangeOutsideFile => Failure::RangeOutsideFile,
        }
    }
}

/// What a walk passed over, and in the function at which node.
#[derive(Debug, PartialEq, Eq)]
pub enum Skipped {
    /// The function has no body to search.
    NoBody { function: usize },
    /// A call with this text has no path as its callee: it calls a closure, or what
    /// another call returned.
    NoCallee { function: usize, call: String },
    /// The callee with this text resolves to nothing.
    Unresolved { function: usize, callee: String },
    /// The callee with this text resolves to what a mere token defines, not an item.
    NotAnItem { function: usize, callee: String },
}

/// [`Skipped`] as mathematics.
pub enum Note {
    NoBody { function: usize },
    NoCallee { function: usize, call: Seq<char> },
    Unresolved { function: usize, callee: Seq<char> },
    NotAnItem { function: usize, callee: Seq<char> },
}

impl View for Skipped {
    type V = Note;

    open spec fn view(&self) -> Note {
        match *self {
            Skipped::NoBody { function } => Note::NoBody { function },
            Skipped::NoCallee { function, call } => Note::NoCallee { function, call: call@ },
            Skipped::Unresolved { function, callee } => Note::Unresolved {
                function,
                callee: callee@,
            },
            Skipped::NotAnItem { function, callee } => Note::NotAnItem {
                function,
                callee: callee@,
            },
        }
    }
}

/// What was passed over, as mathematics.
pub open spec fn notes_of(skipped: Seq<Skipped>) -> Seq<Note> {
    Seq::new(skipped.len(), |i: int| skipped[i]@)
}

/// What is passed over when the function `node`, at node `src`, is entered: the function
/// itself where it has no body, else its calls without a callee.
pub open spec fn entry_notes(src: usize, node: Node) -> Seq<Note> {
    match call_sites_of(node) {
        None => seq![Note::NoBody { function: src }],
        Some(_) => Seq::new(
            loose_calls_of(node).len(),
            |i: int| Note::NoCallee { function: src, call: loose_calls_of(node)[i] },
        ),
    }
}

/// What a walk ends in: the graph, and what was passed over on the way.
pub struct Report {
    pub graph: GraphView,
    pub skipped: Seq<Note>,
}

/// What is done with the definition of a callee once the edge to it stands.
#[derive(Clone, Copy, Debug, PartialEq, Eq, Structural)]
pub enum Followup {
    /// It is a function: its body is searched for calls.
    Expand,
    /// It calls nothing: the node stays as it is.
    Leaf,
    /// It is of no kind that a callee can have.
    Unexpected,
}

/// A function in the code: the node that defines it, and the file that this node is in.
pub struct Origin {
    pub file: FileId,
    pub node: Node,
}

/// What a call leads to: the identity of the callee, and the node that defines it.
pub struct Callee {
    pub identity: Seq<char>,
    pub origin: Origin,
}

/// How far a walk has come: the graph so far, and the nodes whose functions were expanded.
pub struct Progress {
    pub graph: GraphView,
    pub seen: Set<usize>,
    pub skipped: Seq<Note>,
}

/// The definition that a call is linked to: the first that the analysis found, if any.
pub open spec fn first_target_of(found: Option<Seq<Definition>>) -> Option<Definition> {
    match found {
        Some(targets) => if targets.len() > 0 {
            Some(targets[0])
        } else {
            None
        },
        None => None,
    }
}

/// The identity of a definition: its name, behind the name of what contains it and `::`
/// where something does.
pub open spec fn identity_of(target: Definition) -> Seq<char> {
    match target.container_name {
        Some(container) => container@ + "::"@ + target.name@,
        None => target.name@,
    }
}

/// What follows for a callee that is defined by a node of this kind.
pub open spec fn followup_of(kind: NodeKind) -> Followup {
    match kind {
        NodeKind::Fn => Followup::Expand,
        NodeKind::Variant => Followup::Leaf,
        NodeKind::Struct => Followup::Leaf,
        NodeKind::TokenTree => Followup::Leaf,
        NodeKind::Impl => Followup::Leaf,
        _ => Followup::Unexpected,
    }
}

/// The definition that the call with the callee `site`, in the given file, is linked to.
pub open spec fn target_at(an: Analysis, file: FileId, site: Node) -> Option<Definition> {
    first_target_of(targets_at(an, file, span_of(site).1))
}

/// Whether the node is what defines the target: the smallest node of the target's file
/// that covers its range.
pub open spec fn defined_by(an: Analysis, target: Definition, origin: Origin) -> bool {
    &&& target.file_id == origin.file
    &&& target.end <= file_len(an, target.file_id)
    &&& covering_of(root_of(an, target.file_id), target.start as nat, target.end as nat)
        == Some(origin.node)
}

/// What the call with the callee `site`, in the given file, leads to: the first
/// definition that the callee resolves to, if a node defines it. A callee that resolves
/// to nothing leads nowhere, and so does one that a mere token defines, as it does a
/// local binding: such a call goes through a value, not to an item.
pub open spec fn callee_at(an: Analysis, file: FileId, site: Node) -> Option<Callee> {
    match target_at(an, file, site) {
        Some(target) => if target.end <= file_len(an, target.file_id) {
            match covering_of(
                root_of(an, target.file_id),
                target.start as nat,
                target.end as nat,
            ) {
                Some(node) => Some(
                    Callee {
                        identity: identity_of(target),
                        origin: Origin { file: target.file_id, node },
                    },
                ),
                None => None,
            }
        } else {
            None
        },
        None => None,
    }
}

/// The callees of the calls in the body of a function, in pre-order; none for a function
/// without a body.
pub open spec fn sites_of(origin: Origin) -> Seq<Node> {
    match call_sites_of(origin.node) {
        Some(sites) => sites,
        None => Seq::empty(),
    }
}

/// Whether the call with the callee `site` leads to the given identity.
pub open spec fn calls(an: Analysis, file: FileId, site: Node, identity: Seq<char>) -> bool {
    callee_at(an, file, site) matches Some(callee) && callee.identity == identity
}

/// The names of the functions among the nodes, in their order; functions without a name
/// are passed over.
pub open spec fn fn_names_among(nodes: Seq<Node>) -> Seq<Seq<char>>
    decreases nodes.len(),
{
    if nodes.len() == 0 {
        Seq::empty()
    } else {
        let before = fn_names_among(nodes.drop_last());
        let node = nodes.last();
        if kind_of(node) == NodeKind::Fn && fn_name_of(node) is Some {
            before.push(fn_name_of(node)->0)
        } else {
            before
        }
    }
}

/// Where the walk stands once the function `node` of the given file, at node `src`, is
/// expanded: a function that was seen before is left alone; any other is marked as seen,
/// and the calls in its body are recorded one after the other. `depth` bounds how deep
/// expansions may nest: at depth 0 a function is left alone like one that was seen.
pub open spec fn expanded(
    an: Analysis,
    p: Progress,
    file: FileId,
    src: usize,
    node: Node,
    depth: nat,
) -> Result<Progress, Failure>
    decreases depth, 0int, 0int,
{
    if p.seen.contains(src) || depth == 0 {
        Ok(p)
    } else {
        visited(
            an,
            Progress {
                graph: p.graph,
                seen: p.seen.insert(src),
                skipped: p.skipped + entry_notes(src, node),
            },
            file,
            src,
            sites_of(Origin { file, node }),
            0,
            (depth - 1) as nat,
        )
    }
}

/// Where the walk stands once the calls with the callees `sites[from..]`, in the function
/// at node `src`, are recorded in their order. The first that fails ends the walk.
pub open spec fn visited(
    an: Analysis,
    p: Progress,
    file: FileId,
    src: usize,
    sites: Seq<Node>,
    from: int,
    depth: nat,
) -> Result<Progress, Failure>
    decreases depth, 2int, sites.len() - from,
{
    if from < 0 || from >= sites.len() {
        Ok(p)
    } else {
        match resolved(an, p, file, src, sites[from], depth) {
            Ok(next) => visited(an, next, file, src, sites, from + 1, depth),
            Err(error) => Err(error),
        }
    }
}

/// Where the walk stands once the call with the callee `site`, in the function at node
/// `src`, is recorded. A callee that resolves to nothing, or to what a mere token defines,
/// changes nothing. Any other gets its node and the edge to it; then a function is
/// expanded, and what is neither a function nor known to call nothing ends the walk.
pub open spec fn resolved(
    an: Analysis,
    p: Progress,
    file: FileId,
    src: usize,
    site: Node,
    depth: nat,
) -> Result<Progress, Failure>
    decreases depth, 1int, 0int,
{
    match target_at(an, file, site) {
        None => Ok(
            Progress {
                graph: p.graph,
                seen: p.seen,
                skipped: p.skipped.push(Note::Unresolved { function: src, callee: text_of(site) }),
            },
        ),
        Some(target) => if target.end > file_len(an, target.file_id) {
            Err(Failure::RangeOutsideFile)
        } else {
            match covering_of(
                root_of(an, target.file_id),
                target.start as nat,
                target.end as nat,
            ) {
                None => Ok(
                    Progress {
                        graph: p.graph,
                        seen: p.seen,
                        skipped: p.skipped.push(
                            Note::NotAnItem { function: src, callee: text_of(site) },
                        ),
                    },
                ),
                Some(node) => {
                    let graph = p.graph.with_edge(src as int, identity_of(target));
                    let dst = graph.index_of(identity_of(target)) as usize;
                    let linked = Progress { graph, seen: p.seen, skipped: p.skipped };
                    match followup_of(kind_of(node)) {
                        Followup::Leaf => Ok(linked),
                        Followup::Unexpected => Err(Failure::UnexpectedKind { kind: kind_name_of(node) }),
                        Followup::Expand => expanded(
                            an,
                            linked,
                            target.file_id,
                            dst,
                            node,
                            depth,
                        ),
                    }
                },
            }
        },
    }
}

/// Where the walk stands once the functions among `tops[from..]`, the nodes at the top of
/// the root file, are made nodes of the graph and expanded in their order. A function
/// without a name ends the walk.
pub open spec fn rooted(
    an: Analysis,
    p: Progress,
    root_file: FileId,
    tops: Seq<Node>,
    from: int,
) -> Result<Progress, Failure>
    decreases tops.len() - from,
{
    if from < 0 || from >= tops.len() {
        Ok(p)
    } else if kind_of(tops[from]) != NodeKind::Fn {
        rooted(an, p, root_file, tops, from + 1)
    } else {
        match fn_name_of(tops[from]) {
            None => Err(Failure::MissingName),
            Some(name) => {
                let graph = p.graph.with_node(name);
                let src = graph.index_of(name) as usize;
                match expanded(
                    an,
                    Progress { graph, seen: p.seen, skipped: p.skipped },
                    root_file,
                    src,
                    tops[from],
                    usize::MAX as nat,
                ) {
                    Ok(next) => rooted(an, next, root_file, tops, from + 1),
                    Err(error) => Err(error),
                }
            },
        }
    }
}

/// The call graph of the crate with the given root file and name and what the walk passed
/// over, or the reason for which it has none, as long as the analysis answers every query.
pub open spec fn outcome_of(an: Analysis, root_file: FileId, name: Seq<char>) -> Result<
    Report,
    Failure,
> {
    match rooted(
        an,
        Progress { graph: GraphView::empty(name), seen: Set::empty(), skipped: Seq::empty() },
        root_file,
        children_of(root_of(an, root_file)),
        0,
    ) {
        Ok(p) => Ok(Report { graph: p.graph, skipped: p.skipped }),
        Err(error) => Err(error),
    }
}

/// Nothing but a function is ever expanded.
pub proof fn lemma_only_functions_expand(kind: NodeKind)
    ensures
        followup_of(kind) is Expand <==> kind == NodeKind::Fn,
{
}

/// A function is expanded once: where it was seen before, expanding it changes nothing.
pub proof fn lemma_expanded_once(
    an: Analysis,
    p: Progress,
    file: FileId,
    src: usize,
    node: Node,
    depth: nat,
)
    requires
        p.seen.contains(src),
    ensures
        expanded(an, p, file, src, node, depth) == Ok::<Progress, Failure>(p),
{
}

/// A callee that is no function is never expanded: recording a call of it leaves the
/// expanded nodes as they were.
pub proof fn lemma_leaf_not_expanded(
    an: Analysis,
    p: Progress,
    file: FileId,
    src: usize,
    site: Node,
    depth: nat,
)
    requires
        callee_at(an, file, site) matches Some(callee) && kind_of(callee.origin.node)
            != NodeKind::Fn,
    ensures
        resolved(an, p, file, src, site, depth) matches Ok(next) ==> next.seen == p.seen,
{
}

/// A callee that resolves to nothing leaves no node and no edge: the graph and the expanded
/// nodes stay as they were, and the walk goes on.
pub proof fn lemma_unresolved_leaves_no_edge(
    an: Analysis,
    p: Progress,
    file: FileId,
    src: usize,
    site: Node,
    depth: nat,
)
    requires
        target_at(an, file, site) is None,
    ensures
        resolved(an, p, file, src, site, depth) matches Ok(next) && next.graph == p.graph
            && next.seen == p.seen,
{
}

/// A callee that resolves to what a mere token defines, as the name of a closure does,
/// leaves no node and no edge: the graph and the expanded nodes stay as they were, and the
/// walk goes on.
pub proof fn lemma_value_leaves_no_edge(
    an: Analysis,
    p: Progress,
    file: FileId,
    src: usize,
    site: Node,
    depth: nat,
)
    requires
        target_at(an, file, site) matches Some(target) && target.end <= file_len(
            an,
            target.file_id,
        ) && covering_of(root_of(an, target.file_id), target.start as nat, target.end as nat)
            is None,
    ensures
        resolved(an, p, file, src, site, depth) matches Ok(next) && next.graph == p.graph
            && next.seen == p.seen,
{
}

/// The same code gives the same document: what a walk ends in is settled by the snapshot,
/// the root file and the name, so two walks over the same code that both come to an end
/// give the same graph, and its rendering is the same, character by character.
pub proof fn lemma_same_code_same_document(
    an: Analysis,
    root_file: FileId,
    name: Seq<char>,
    first: Report,
    second: Report,
)
    requires
        outcome_of(an, root_file, name) == Ok::<Report, Failure>(first),
        outcome_of(an, root_file, name) == Ok::<Report, Failure>(second),
    ensures
        first == second,
        render(first.graph) == render(second.graph),
{
}

} // verus!
