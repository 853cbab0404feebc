//! The construction of the call graph: every function defined at the top of the root file
//! is expanded, and with it every function that its calls lead to.

use crate::account::{
    advanced_graph, consistent, expandable, explains, is_called, kept_in, lemma_complete_stable,
    lemma_site_recorded_stable, lemma_sound_stable, lemma_sound_with_edge, named, node_complete,
    site_recorded, top_level_fn,
};
use crate::calls::{
    callee_at, defined_by, expanded, first_target_of, fn_names_among, followup_of, identity_of,
    entry_notes, notes_of, outcome_of, resolved, rooted, sites_of, visited, BuildError, Callee,
    Failure, Followup, Note, Origin, Progress, Report, Skipped,
};
use crate::graph::{
    lemma_extends_chain, lemma_extends_keeps, lemma_with_edge_extends, lemma_with_node_extends,
    Graph, GraphView,
};
use crate::provider::{
    children_of, covering_node, file_len, goto_definition, holds_file, kind_name_of, kind_of,
    node_children, node_kind, node_kind_name, node_span, node_text, parse_file, root_of,
    single_file, single_file_of, span_of, text_of, Definition, Node, NodeKind,
};
use crate::syntax::{
    call_sites, call_sites_of, get_fn_name, loose_calls, loose_calls_of, texts,
};
use ra_ap_ide::{Analysis, Cancelled, FileId};
use std::collections::HashSet;
use vstd::prelude::*;
use vstd::set_lib::lemma_len_subset;
use vstd::string::StringExecFns;

verus! {

/// The graph once the call from node `src` to `target` is recorded. A callee that is
/// defined by a mere token (`kind` is `None`), as a local binding is, leaves no trace: the
/// call goes through a value, not to an item.
pub open spec fn recorded(
    g: GraphView,
    src: int,
    target: Definition,
    kind: Option<NodeKind>,
) -> GraphView {
    match kind {
        Some(_) => g.with_edge(src, identity_of(target)),
        None => g,
    }
}

/// The definition that a call is linked to: the first of those found.
pub fn first_target(found: Option<Vec<Definition>>) -> (target: Option<Definition>)
    ensures
        target == first_target_of(
            match found {
                Some(targets) => Some(targets@),
                None => None,
            },
        ),
{
    match found {
        Some(mut targets) => {
            if targets.len() > 0 {
                Some(targets.swap_remove(0))
            } else {
                None
            }
        },
        None => None,
    }
}

/// The identity of a definition.
pub fn qualified_path(target: &Definition) -> (path: String)
    ensures
        path@ == identity_of(*target),
{
    match &target.container_name {
        Some(container) => {
            let mut path = container.clone();
            path.append("::");
            path.append(target.name.as_str());
            path
        },
        None => target.name.clone(),
    }
}

/// What follows for a callee that is defined by a node of this kind.
pub fn classify(kind: NodeKind) -> (followup: Followup)
    ensures
        followup == followup_of(kind),
{
    match kind {
        NodeKind::Fn => Followup::Expand,
        NodeKind::Variant => Followup::Leaf,
        NodeKind::Struct => Followup::Leaf,
        NodeKind::TokenTree => Followup::Leaf,
        NodeKind::Impl => Followup::Leaf,
        _ => Followup::Unexpected,
    }
}

/// What is said when no graph could be built.
pub open spec fn description_of(failure: Failure) -> Seq<char> {
    match failure {
        Failure::Cancelled => "Unexpected cancellation of a query"@,
        Failure::MissingName => "Failed to find the name of a function"@,
        Failure::UnexpectedKind { kind } => "Unexpected kind of definition: "@ + kind,
        Failure::RangeOutsideFile => "Definition outside of its file"@,
    }
}

/// The message for a graph that could not be built. It names the kind of a definition that
/// no callee can have.
pub fn describe_error(error: &BuildError) -> (description: String)
    ensures
        description@ == description_of(error@),
{
    match error {
        BuildError::Cancelled => String::from_str("Unexpected cancellation of a query"),
        BuildError::MissingName => String::from_str("Failed to find the name of a function"),
        BuildError::UnexpectedKind { kind } => {
            let mut description = String::from_str("Unexpected kind of definition: ");
            description.append(kind.as_str());
            description
        },
        BuildError::RangeOutsideFile => String::from_str("Definition outside of its file"),
    }
}

/// What a step of the walk makes of an answer of the analysis: the answer itself; or,
/// where the query was cancelled, the end of the walk, for the snapshot is no longer to be
/// relied on. The query is neither passed over nor asked again.
pub fn answered<T>(answer: Result<T, Cancelled>) -> (step: Result<T, BuildError>)
    ensures
        match answer {
            Ok(value) => step == Ok::<T, BuildError>(value),
            Err(_) => step == Err::<T, BuildError>(BuildError::Cancelled),
        },
{
    match answer {
        Ok(value) => Ok(value),
        Err(_) => Err(BuildError::Cancelled),
    }
}

/// Records the call from node `src` to `target`, whose defining element is a node of the
/// given kind or, for `None`, a token. Returns the index of the callee's node where the
/// call was recorded.
pub fn record_call(
    graph: &mut Graph,
    src: usize,
    target: &Definition,
    kind: Option<NodeKind>,
) -> (dst: Option<usize>)
    requires
        old(graph).wf(),
        src < old(graph)@.len(),
    ensures
        final(graph).wf(),
        final(graph)@ == recorded(old(graph)@, src as int, *target, kind),
        dst is Some <==> kind is Some,
        dst matches Some(index) ==> index == final(graph)@.index_of(identity_of(*target))
            && index < final(graph)@.len(),
{
    match kind {
        Some(_) => Some(link(graph, src, qualified_path(target))),
        None => None,
    }
}

/// What a walk ends in: the graph, and what was passed over on the way, in the order in
/// which it was met.
pub struct Built {
    pub graph: Graph,
    pub skipped: Vec<Skipped>,
}

impl View for Built {
    type V = Report;

    open spec fn view(&self) -> Report {
        Report { graph: self.graph@, skipped: notes_of(self.skipped@) }
    }
}

/// What is said of something that a walk passed over.
pub open spec fn remark_of(note: Note) -> Seq<char> {
    match note {
        Note::NoBody { function } => "no body to search"@,
        Note::NoCallee { function, call } => "no path to call in "@ + call,
        Note::Unresolved { function, callee } => "no definition found for "@ + callee,
        Note::NotAnItem { function, callee } => "no item behind "@ + callee,
    }
}

/// The remark on something that a walk passed over.
pub fn describe_skipped(skipped: &Skipped) -> (remark: String)
    ensures
        remark@ == remark_of(skipped@),
{
    match skipped {
        Skipped::NoBody { .. } => String::from_str("no body to search"),
        Skipped::NoCallee { call, .. } => {
            let mut remark = String::from_str("no path to call in ");
            remark.append(call.as_str());
            remark
        },
        Skipped::Unresolved { callee, .. } => {
            let mut remark = String::from_str("no definition found for ");
            remark.append(callee.as_str());
            remark
        },
        Skipped::NotAnItem { callee, .. } => {
            let mut remark = String::from_str("no item behind ");
            remark.append(callee.as_str());
            remark
        },
    }
}

/// The state of a walk: the graph so far, the nodes whose functions were expanded, and,
/// for the proof alone, the function that each of them stands for.
struct Walk {
    graph: Graph,
    seen: HashSet<usize>,
    skipped: Vec<Skipped>,
    origins: Ghost<Map<usize, Origin>>,
}

impl Walk {
    /// The graph and the expanded functions fit together, and the expanded nodes are those
    /// that were seen.
    spec fn inv(&self, an: Analysis) -> bool {
        &&& self.graph.wf()
        &&& consistent(an, self.graph@, self.origins@)
        &&& self.seen@ == self.origins@.dom()
    }
}

/// Whether the walk went on from `before` to `after`: nothing was lost, and every new node
/// is called.
spec fn advanced(before: Walk, after: Walk) -> bool {
    &&& advanced_graph(before.graph@, after.graph@)
    &&& kept_in(before.origins@, after.origins@)
}

/// Whether every function expanded between `before` and `after` has all its calls recorded.
spec fn completed_since(an: Analysis, before: Walk, after: Walk) -> bool {
    forall|u: usize| #[trigger]
        after.origins@.dom().contains(u) && !before.origins@.dom().contains(u) ==> node_complete(
            an,
            after.graph@,
            after.origins@,
            u,
        )
}

/// How far the walk has come.
spec fn progress(walk: Walk) -> Progress {
    Progress { graph: walk.graph@, seen: walk.seen@, skipped: notes_of(walk.skipped@) }
}

/// Whether a step of the walk ended as it should: where `expected` says, or in a
/// cancellation, which no one can foresee.
spec fn agrees(
    done: Result<(), BuildError>,
    expected: Result<Progress, Failure>,
    after: Walk,
) -> bool {
    match done {
        Ok(()) => expected == Ok::<Progress, Failure>(progress(after)),
        Err(error) => error@ == Failure::Cancelled || expected == Err::<Progress, Failure>(
            error@,
        ),
    }
}

/// A walk that went on twice went on.
proof fn lemma_advanced_chain(first: Walk, second: Walk, third: Walk)
    requires
        advanced(first, second),
        advanced(second, third),
    ensures
        advanced(first, third),
{
    assert forall|v: int|
        first.graph@.len() <= v < third.graph@.len() implies #[trigger] is_called(
        third.graph@,
        v,
    ) by {
        if v < second.graph@.len() {
            assert(is_called(second.graph@, v));
            let u = choose|u: int| #[trigger] second.graph@.has_edge(u, v);
            assert(third.graph@.has_edge(u, v));
        }
    }
}

/// A finite set of numbers below a bound has no more members than the bound.
proof fn lemma_seen_len(seen: Set<usize>, bound: nat)
    requires
        seen.finite(),
        forall|i: usize| seen.contains(i) ==> i < bound,
    ensures
        seen.len() <= bound,
    decreases bound,
{
    if bound == 0 {
        assert(seen =~= Set::empty());
    } else {
        let last = (bound - 1) as usize;
        if bound - 1 <= usize::MAX {
            let rest = seen.remove(last);
            assert forall|i: usize| rest.contains(i) implies i < bound - 1 by {}
            lemma_seen_len(rest, (bound - 1) as nat);
        } else {
            assert forall|i: usize| seen.contains(i) implies i < bound - 1 by {}
            lemma_seen_len(seen, (bound - 1) as nat);
        }
    }
}

/// The expanded nodes of a walk can be counted in a `usize`.
proof fn lemma_room(an: Analysis, walk: Walk)
    requires
        walk.inv(an),
    ensures
        walk.seen@.finite(),
        walk.seen@.len() <= walk.graph@.len() <= usize::MAX,
{
    walk.graph.lemma_len_fits();
    lemma_seen_len(walk.seen@, walk.graph@.len());
}

/// As long as a node is not expanded, there is room for one more.
proof fn lemma_room_for(an: Analysis, walk: Walk, src: usize)
    requires
        walk.inv(an),
        src < walk.graph@.len(),
        !walk.seen@.contains(src),
    ensures
        walk.seen@.len() < usize::MAX,
{
    walk.graph.lemma_len_fits();
    lemma_seen_len(walk.seen@.insert(src), walk.graph@.len());
}

/// Expands the function at node `src_idx`: marks it as seen, and records the call of every
/// callee in its body. A function that was seen before is left alone, so each is
/// expanded once, however the calls run in circles.
fn process_fn_children(
    walk: &mut Walk,
    an: &Analysis,
    file_id: FileId,
    src_idx: usize,
    fn_node: &Node,
    Ghost(depth): Ghost<nat>,
) -> (done: Result<(), BuildError>)
    requires
        old(walk).inv(*an),
        src_idx < old(walk).graph@.len(),
        depth >= usize::MAX - old(walk).seen@.len(),
        expandable(*an, Origin { file: file_id, node: *fn_node }),
        named(
            *an,
            Origin { file: file_id, node: *fn_node },
            old(walk).graph@.labels[src_idx as int],
        ),
    ensures
        final(walk).inv(*an),
        advanced(*old(walk), *final(walk)),
        final(walk).seen@.contains(src_idx),
        done is Ok ==> completed_since(*an, *old(walk), *final(walk)),
        agrees(
            done,
            expanded(*an, progress(*old(walk)), file_id, src_idx, *fn_node, depth),
            *final(walk),
        ),
        old(walk).seen@.contains(src_idx) ==> done is Ok && final(walk).graph@ == old(walk).graph@
            && final(walk).origins@ == old(walk).origins@,
        !old(walk).seen@.contains(src_idx) && sites_of(Origin { file: file_id, node: *fn_node })
            .len() == 0 ==> done is Ok,
        !old(walk).seen@.contains(src_idx) && call_sites_of(*fn_node) is None ==> done is Ok
            && final(walk).graph@ == old(walk).graph@ && final(walk).origins@ == old(walk)
            .origins@.insert(src_idx, Origin { file: file_id, node: *fn_node }),
    decreases usize::MAX - old(walk).seen@.len(), 0int,
{
    let ghost before = *walk;
    let ghost origin = Origin { file: file_id, node: *fn_node };
    if !walk.seen.insert(src_idx) {
        assert(walk.seen@ =~= before.seen@);
        return Ok(());
    }
    walk.origins = Ghost(walk.origins@.insert(src_idx, origin));
    proof {
        assert(walk.seen@ =~= walk.origins@.dom());
        lemma_sound_stable(*an, before.graph@, walk.graph@, before.origins@, walk.origins@);
        lemma_room_for(*an, before, src_idx);
    }
    let ghost below = (depth - 1) as nat;
    let ghost entered = *walk;
    let ghost notes = entry_notes(src_idx, *fn_node);
    let Some(sites) = call_sites(fn_node) else {
        walk.skipped.push(Skipped::NoBody { function: src_idx });
        assert(notes_of(walk.skipped@) =~= notes_of(entered.skipped@) + notes);
        return Ok(());
    };
    assert(sites_of(origin) == sites@);
    let loose = loose_calls(fn_node);
    let mut j: usize = 0;
    assert(notes_of(walk.skipped@) =~= notes_of(entered.skipped@) + notes.take(0));
    while j < loose.len()
        invariant
            j <= loose.len(),
            texts(loose@) == loose_calls_of(*fn_node),
            call_sites_of(*fn_node) is Some,
            notes == entry_notes(src_idx, *fn_node),
            walk.graph == entered.graph,
            walk.seen == entered.seen,
            walk.origins == entered.origins,
            notes_of(walk.skipped@) == notes_of(entered.skipped@) + notes.take(j as int),
        decreases loose.len() - j,
    {
        let ghost so_far = walk.skipped@;
        walk.skipped.push(Skipped::NoCallee { function: src_idx, call: loose[j].clone() });
        proof {
            assert(texts(loose@)[j as int] == loose[j as int]@);
            assert(notes_of(walk.skipped@) =~= notes_of(so_far).push(notes[j as int]));
            assert(notes.take(j + 1) =~= notes.take(j as int).push(notes[j as int]));
        }
        j += 1;
    }
    assert(notes.take(loose.len() as int) =~= notes);
    let mut i: usize = 0;
    while i < sites.len()
        invariant
            i <= sites.len(),
            call_sites_of(*fn_node) == Some(sites@),
            origin == (Origin { file: file_id, node: *fn_node }),
            depth >= 1,
            below == depth - 1,
            below >= usize::MAX - walk.seen@.len(),
            expanded(*an, progress(before), file_id, src_idx, *fn_node, depth) == visited(
                *an,
                progress(*walk),
                file_id,
                src_idx,
                sites@,
                i as int,
                below,
            ),
            walk.inv(*an),
            before.inv(*an),
            before == *old(walk),
            advanced(before, *walk),
            !before.seen@.contains(src_idx),
            walk.origins@.dom().contains(src_idx),
            walk.origins@[src_idx] == origin,
            forall|j: int|
                0 <= j < sites.len() ==> span_of(#[trigger] sites[j]).1 <= file_len(*an, file_id),
            forall|j: int|
                0 <= j < i ==> site_recorded(
                    *an,
                    walk.graph@,
                    walk.origins@.dom(),
                    src_idx as int,
                    file_id,
                    #[trigger] sites[j],
                ),
            forall|u: usize| #[trigger]
                walk.origins@.dom().contains(u) && !before.origins@.dom().contains(u) && u
                    != src_idx ==> node_complete(*an, walk.graph@, walk.origins@, u),
        decreases sites.len() - i,
    {
        let ghost mid = *walk;
        proof {
            lemma_room(*an, before);
            lemma_room(*an, mid);
            assert(before.seen@.insert(src_idx).subset_of(mid.seen@));
            lemma_len_subset(before.seen@.insert(src_idx), mid.seen@);
        }
        let step = process_recursively(
            walk,
            an,
            file_id,
            src_idx,
            &sites[i],
            Ghost(i as int),
            Ghost(below),
        );
        proof {
            lemma_room(*an, *walk);
            assert(mid.seen@.subset_of(walk.seen@));
            lemma_len_subset(mid.seen@, walk.seen@);
            lemma_advanced_chain(before, mid, *walk);
            assert forall|j: int| 0 <= j < i implies site_recorded(
                *an,
                walk.graph@,
                walk.origins@.dom(),
                src_idx as int,
                file_id,
                #[trigger] sites[j],
            ) by {
                lemma_site_recorded_stable(
                    *an,
                    mid.graph@,
                    walk.graph@,
                    mid.origins@.dom(),
                    walk.origins@.dom(),
                    src_idx as int,
                    file_id,
                    sites[j],
                );
            }
            if step is Ok {
                assert forall|u: usize| #[trigger]
                    walk.origins@.dom().contains(u) && !before.origins@.dom().contains(u) && u
                        != src_idx implies node_complete(*an, walk.graph@, walk.origins@, u) by {
                    if mid.origins@.dom().contains(u) {
                        lemma_complete_stable(
                            *an,
                            mid.graph@,
                            walk.graph@,
                            mid.origins@,
                            walk.origins@,
                            u,
                        );
                    }
                }
            }
        }
        if let Err(error) = step {
            return Err(error);
        }
        i += 1;
    }
    proof {
        assert(sites_of(walk.origins@[src_idx]) == sites@);
        assert(node_complete(*an, walk.graph@, walk.origins@, src_idx));
    }
    Ok(())
}

/// Resolves the callee `f` of a call in the function at node `src_idx`, records the call,
/// and goes on with what the callee resolves to. Where it resolves to nothing with a
/// definition of its own, nothing is done.
fn process_recursively(
    walk: &mut Walk,
    an: &Analysis,
    file_id: FileId,
    src_idx: usize,
    f: &Node,
    Ghost(k): Ghost<int>,
    Ghost(depth): Ghost<nat>,
) -> (done: Result<(), BuildError>)
    requires
        old(walk).inv(*an),
        depth >= usize::MAX - old(walk).seen@.len(),
        old(walk).seen@.contains(src_idx),
        old(walk).origins@[src_idx].file == file_id,
        0 <= k < sites_of(old(walk).origins@[src_idx]).len(),
        sites_of(old(walk).origins@[src_idx])[k] == *f,
        span_of(*f).1 <= file_len(*an, file_id),
    ensures
        final(walk).inv(*an),
        advanced(*old(walk), *final(walk)),
        done is Ok ==> completed_since(*an, *old(walk), *final(walk)),
        done is Ok ==> site_recorded(
            *an,
            final(walk).graph@,
            final(walk).origins@.dom(),
            src_idx as int,
            file_id,
            *f,
        ),
        agrees(
            done,
            resolved(*an, progress(*old(walk)), file_id, src_idx, *f, depth),
            *final(walk),
        ),
    decreases usize::MAX - old(walk).seen@.len(), 2int,
{
    let ghost before = *walk;
    let (_, offset) = node_span(f);
    let found = match answered(goto_definition(an, file_id, offset)) {
        Ok(found) => found,
        Err(error) => {
            return Err(error);
        },
    };
    let Some(target) = first_target(found) else {
        let ghost so_far = walk.skipped@;
        walk.skipped.push(Skipped::Unresolved { function: src_idx, callee: node_text(f) });
        assert(notes_of(walk.skipped@) =~= notes_of(so_far).push(
            Note::Unresolved { function: src_idx, callee: text_of(*f) },
        ));
        return Ok(());
    };
    let tree = match answered(parse_file(an, target.file_id)) {
        Ok(tree) => tree,
        Err(error) => {
            return Err(error);
        },
    };
    let (_, tree_end) = node_span(&tree);
    if target.end > tree_end {
        return Err(BuildError::RangeOutsideFile);
    }
    let definition = covering_node(&tree, target.start, target.end);
    let kind = match &definition {
        Some(node) => Some(node_kind(node)),
        None => None,
    };
    let ghost identity = identity_of(target);
    proof {
        lemma_room(*an, before);
        lemma_with_edge_extends(before.graph@, src_idx as int, identity);
        if kind is Some {
            lemma_sound_with_edge(*an, before.graph@, before.origins@, src_idx, k, identity);
        }
    }
    let linked = record_call(&mut walk.graph, src_idx, &target, kind);
    let ghost linked_walk = *walk;
    let (Some(new_src), Some(fn_node)) = (linked, definition) else {
        let ghost so_far = walk.skipped@;
        walk.skipped.push(Skipped::NotAnItem { function: src_idx, callee: node_text(f) });
        assert(notes_of(walk.skipped@) =~= notes_of(so_far).push(
            Note::NotAnItem { function: src_idx, callee: text_of(*f) },
        ));
        return Ok(());
    };
    proof {
        lemma_with_node_extends(before.graph@, identity);
        assert(walk.graph@.has_edge(src_idx as int, new_src as int));
        assert forall|v: int|
            before.graph@.len() <= v < walk.graph@.len() implies #[trigger] is_called(
            walk.graph@,
            v,
        ) by {
            assert(walk.graph@.labels[v] == identity);
            assert(v == new_src);
        }
        assert(defined_by(*an, target, Origin { file: target.file_id, node: fn_node }));
    }
    let followed = follow_definition(walk, an, target.file_id, new_src, &fn_node, Ghost(depth));
    proof {
        lemma_advanced_chain(before, linked_walk, *walk);
        if followed is Ok {
            lemma_extends_keeps(linked_walk.graph@, walk.graph@, identity);
            assert(callee_at(*an, file_id, *f) == Some(
                Callee { identity, origin: Origin { file: target.file_id, node: fn_node } },
            ));
        }
    }
    followed
}

/// Does what follows for the callee at node `dst_idx` from the node that defines it:
/// expands a function, leaves alone what calls nothing, and refuses anything else. Only a
/// function is ever expanded.
fn follow_definition(
    walk: &mut Walk,
    an: &Analysis,
    file_id: FileId,
    dst_idx: usize,
    definition: &Node,
    Ghost(depth): Ghost<nat>,
) -> (done: Result<(), BuildError>)
    requires
        old(walk).inv(*an),
        dst_idx < old(walk).graph@.len(),
        depth >= usize::MAX - old(walk).seen@.len(),
        holds_file(*an, file_id),
        span_of(*definition).1 <= file_len(*an, file_id),
        named(
            *an,
            Origin { file: file_id, node: *definition },
            old(walk).graph@.labels[dst_idx as int],
        ),
    ensures
        final(walk).inv(*an),
        advanced(*old(walk), *final(walk)),
        done is Ok ==> completed_since(*an, *old(walk), *final(walk)),
        done is Ok ==> !(followup_of(kind_of(*definition)) is Unexpected),
        done is Ok && kind_of(*definition) == NodeKind::Fn ==> final(walk).seen@.contains(dst_idx),
        kind_of(*definition) == NodeKind::Fn ==> agrees(
            done,
            expanded(*an, progress(*old(walk)), file_id, dst_idx, *definition, depth),
            *final(walk),
        ),
        followup_of(kind_of(*definition)) is Leaf ==> done is Ok,
        kind_of(*definition) == NodeKind::Fn && (old(walk).seen@.contains(dst_idx) || sites_of(
            Origin { file: file_id, node: *definition },
        ).len() == 0) ==> done is Ok,
        followup_of(kind_of(*definition)) is Unexpected ==> (done matches Err(error) && error@ == (
        Failure::UnexpectedKind { kind: kind_name_of(*definition) })),
        kind_of(*definition) != NodeKind::Fn ==> final(walk).graph@ == old(walk).graph@
            && final(walk).origins@ == old(walk).origins@ && final(walk).skipped == old(walk).skipped,
    decreases usize::MAX - old(walk).seen@.len(), 1int,
{
    proof {
        lemma_room(*an, *walk);
    }
    match classify(node_kind(definition)) {
        Followup::Leaf => Ok(()),
        Followup::Unexpected => Err(
            BuildError::UnexpectedKind { kind: node_kind_name(definition) },
        ),
        Followup::Expand => process_fn_children(
            walk,
            an,
            file_id,
            dst_idx,
            definition,
            Ghost(depth),
        ),
    }
}

/// The call graph of the crate whose root file is `root_file`: every function defined at
/// the top of that file is a node and is expanded, in the order of the file.
pub fn construct(an: &Analysis, root_file: FileId, crate_name: String) -> (built: Result<
    Built,
    BuildError,
>)
    requires
        holds_file(*an, root_file),
    ensures
        match built {
            Ok(built) => outcome_of(*an, root_file, crate_name@) == Ok::<Report, Failure>(
                built@,
            ),
            Err(error) => error@ == Failure::Cancelled || outcome_of(
                *an,
                root_file,
                crate_name@,
            ) == Err::<Report, Failure>(error@),
        },
        built matches Ok(built) ==> built.graph.wf() && built.graph@.name == crate_name@
            && exists|origins: Map<usize, Origin>|
            explains(*an, root_file, built.graph@, origins),
{
    let root = match answered(parse_file(an, root_file)) {
        Ok(root) => root,
        Err(error) => {
            return Err(error);
        },
    };
    let mut walk = Walk {
        graph: Graph::new(crate_name),
        seen: HashSet::new(),
        skipped: Vec::new(),
        origins: Ghost(Map::empty()),
    };
    let tops = node_children(&root);
    let mut i: usize = 0;
    let ghost start = progress(walk);
    assert(notes_of(walk.skipped@) =~= Seq::empty());
    proof {
        assert(walk.seen@ =~= walk.origins@.dom());
        assert(tops@.take(0) =~= Seq::empty());
    }
    while i < tops.len()
        invariant
            i <= tops.len(),
            tops@ == children_of(root_of(*an, root_file)),
            start == (Progress {
                graph: GraphView::empty(crate_name@),
                seen: Set::empty(),
                skipped: Seq::empty(),
            }),
            rooted(*an, start, root_file, tops@, 0) == rooted(
                *an,
                progress(walk),
                root_file,
                tops@,
                i as int,
            ),
            walk.inv(*an),
            walk.graph@.name == crate_name@,
            holds_file(*an, root_file),
            forall|j: int|
                0 <= j < tops.len() ==> span_of(#[trigger] tops[j]).1 <= file_len(*an, root_file),
            forall|k: int|
                0 <= k < fn_names_among(tops@.take(i as int)).len() ==> walk.graph@.contains(
                    #[trigger] fn_names_among(tops@.take(i as int))[k],
                ) && walk.origins@.dom().contains(
                    walk.graph@.index_of(fn_names_among(tops@.take(i as int))[k]) as usize,
                ),
            forall|u: usize| #[trigger]
                walk.origins@.dom().contains(u) ==> node_complete(
                    *an,
                    walk.graph@,
                    walk.origins@,
                    u,
                ),
            forall|v: int|
                0 <= v < walk.graph@.len() ==> fn_names_among(tops@.take(i as int)).contains(
                    #[trigger] walk.graph@.labels[v],
                ) || is_called(walk.graph@, v),
        decreases tops.len() - i,
    {
        let ghost names = fn_names_among(tops@.take(i as int));
        let ghost more = fn_names_among(tops@.take(i + 1));
        proof {
            let upto = tops@.take(i + 1);
            assert(upto.drop_last() =~= tops@.take(i as int));
            assert(upto.last() == tops[i as int]);
        }
        if node_kind(&tops[i]) == NodeKind::Fn {
            let Some(fn_name) = get_fn_name(&tops[i]) else {
                return Err(BuildError::MissingName);
            };
            let ghost before = walk;
            let ghost name = fn_name@;
            let src_idx = walk.graph.get_or_insert(fn_name);
            let ghost inserted = walk;
            proof {
                assert(more == names.push(name));
                lemma_with_node_extends(before.graph@, name);
                lemma_sound_stable(
                    *an,
                    before.graph@,
                    walk.graph@,
                    before.origins@,
                    walk.origins@,
                );
                assert(tops@.contains(tops[i as int]));
                assert(top_level_fn(*an, Origin { file: root_file, node: tops[i as int] }, name));
            }
            proof {
                lemma_room(*an, walk);
            }
            let step = process_fn_children(
                &mut walk,
                an,
                root_file,
                src_idx,
                &tops[i],
                Ghost(usize::MAX as nat),
            );
            proof {
                lemma_extends_chain(before.graph@, inserted.graph@, walk.graph@);
                lemma_extends_keeps(inserted.graph@, walk.graph@, name);
                if step is Ok {
                    assert forall|k: int| 0 <= k < more.len() implies walk.graph@.contains(
                        #[trigger] more[k],
                    ) && walk.origins@.dom().contains(walk.graph@.index_of(more[k]) as usize) by {
                        if k < names.len() {
                            lemma_extends_keeps(before.graph@, walk.graph@, names[k]);
                        }
                    }
                    assert forall|u: usize| #[trigger]
                        walk.origins@.dom().contains(u) implies node_complete(
                        *an,
                        walk.graph@,
                        walk.origins@,
                        u,
                    ) by {
                        if inserted.origins@.dom().contains(u) {
                            lemma_complete_stable(
                                *an,
                                before.graph@,
                                walk.graph@,
                                before.origins@,
                                walk.origins@,
                                u,
                            );
                        }
                    }
                    assert forall|v: int| 0 <= v < walk.graph@.len() implies more.contains(
                        #[trigger] walk.graph@.labels[v],
                    ) || is_called(walk.graph@, v) by {
                        if v < before.graph@.len() {
                            if names.contains(before.graph@.labels[v]) {
                                let at = choose|at: int|
                                    0 <= at < names.len() && names[at] == before.graph@.labels[v];
                                assert(more[at] == walk.graph@.labels[v]);
                            } else {
                                assert(is_called(before.graph@, v));
                                let u = choose|u: int| #[trigger] before.graph@.has_edge(u, v);
                                assert(walk.graph@.has_edge(u, v));
                            }
                        } else if v < inserted.graph@.len() {
                            assert(walk.graph@.labels[v] == name);
                            assert(more[names.len() as int] == name);
                        } else {
                            assert(is_called(walk.graph@, v));
                        }
                    }
                }
            }
            if let Err(error) = step {
                return Err(error);
            }
        }
        i += 1;
    }
    proof {
        assert(tops@.take(tops.len() as int) =~= tops@);
        assert(explains(*an, root_file, walk.graph@, walk.origins@));
    }
    Ok(Built { graph: walk.graph, skipped: walk.skipped })
}

/// The call graph of a crate that consists of one file with the given text.
pub fn graph_of_source(text: String, crate_name: String) -> (built: Result<Built, BuildError>)
    ensures
        match built {
            Ok(built) => built.graph.wf() && outcome_of(
                single_file_of(text@).0,
                single_file_of(text@).1,
                crate_name@,
            ) == Ok::<Report, Failure>(built@),
            Err(error) => error@ == Failure::Cancelled || outcome_of(
                single_file_of(text@).0,
                single_file_of(text@).1,
                crate_name@,
            ) == Err::<Report, Failure>(error@),
        },
{
    let (an, file) = single_file(text);
    construct(&an, file, crate_name)
}

/// Links node `src` to the node of the given identity, which is made if the graph has
/// none, and returns the index of that node.
pub fn link(graph: &mut Graph, src: usize, identity: String) -> (dst: usize)
    requires
        old(graph).wf(),
        src < old(graph)@.len(),
    ensures
        final(graph).wf(),
        final(graph)@ == old(graph)@.with_edge(src as int, identity@),
        dst == final(graph)@.index_of(identity@),
        dst < final(graph)@.len(),
{
    proof {
        graph.lemma_len_fits();
        lemma_with_edge_extends(old(graph)@, src as int, identity@);
    }
    graph.connect(src, identity.clone());
    graph.get_or_insert(identity)
}

} // verus!
