//! The boundary to rust-analyzer: the types that come from it, and one function for each of
//! its operations that the graph's construction calls. Nothing in this file is proved:
//! each contract records what the called code is taken to do.

use ra_ap_ide::{Analysis, Cancelled, FileId, FilePosition, TextRange, TextSize};
use ra_ap_syntax::{AstNode, NodeOrToken, SyntaxKind, SyntaxNode};
use vstd::prelude::*;

verus! {

/// A semantic snapshot of a code base, `ra_ap_ide::Analysis`.
#[verifier::external_type_specification]
#[verifier::external_body]
pub struct ExAnalysis(Analysis);

/// The handle of a file, `ra_ap_ide::FileId`.
#[verifier::external_type_specification]
#[verifier::external_body]
pub struct ExFileId(FileId);

/// The reason for which a query was abandoned, `ra_ap_ide::Cancelled`.
#[verifier::external_type_specification]
#[verifier::external_body]
pub struct ExCancelled(Cancelled);

/// A node of a syntax tree, `ra_ap_syntax::SyntaxNode`. The tree it belongs to is never
/// changed, so everything below that is said of a node holds for as long as it lives.
///
/// The node type is generic over a trait of its crate, which keeps it from being declared
/// here as the other types are: it is held in a struct that is opaque to the verifier.
#[verifier::external_body]
pub struct Node {
    inner: SyntaxNode,
}

/// The kinds of node that the construction of the graph tells apart.
#[derive(Clone, Copy, Debug, PartialEq, Eq, Structural)]
pub enum NodeKind {
    Fn,
    BlockExpr,
    CallExpr,
    PathExpr,
    Name,
    Variant,
    Struct,
    TokenTree,
    Impl,
    Other,
}

/// One place to which a callee resolves: `ra_ap_ide::NavigationTarget`, as far as the
/// graph's construction reads it.
pub struct Definition {
    pub name: String,
    pub container_name: Option<String>,
    pub file_id: FileId,
    /// Where the defining item starts in its file, in bytes.
    pub start: u32,
    /// Where the defining item ends in its file, in bytes.
    pub end: u32,
}

/// Whether the snapshot holds a file under this handle. The analysis has no operation that
/// tells: it holds the files whose handles it gives out, and asking it about any other
/// makes it panic.
pub uninterp spec fn holds_file(an: Analysis, file: FileId) -> bool;

/// What `Analysis::from_single_file` returns for a text: the snapshot that holds the text as
/// its only file, and the handle of that file.
pub uninterp spec fn single_file_of(text: Seq<char>) -> (Analysis, FileId);

/// What `Analysis::parse` returns for the file unless the query is cancelled: the root of
/// the file's syntax tree.
pub uninterp spec fn root_of(an: Analysis, file: FileId) -> Node;

/// The length in bytes of the text that the snapshot holds for the file, which its syntax
/// tree covers from offset 0.
pub open spec fn file_len(an: Analysis, file: FileId) -> nat {
    span_of(root_of(an, file)).1
}

/// What `Analysis::goto_definition` returns at the given byte offset of the file unless the
/// query is cancelled.
pub uninterp spec fn targets_at(an: Analysis, file: FileId, offset: nat) -> Option<
    Seq<Definition>,
>;

/// What `SyntaxNode::kind` returns for the node.
pub uninterp spec fn kind_of(node: Node) -> NodeKind;

/// What `Debug` writes for the kind that `SyntaxNode::kind` returns for the node: the name
/// of the kind.
pub uninterp spec fn kind_name_of(node: Node) -> Seq<char>;

/// What `SyntaxNode::children` yields for the node: its child nodes, in source order.
pub uninterp spec fn children_of(node: Node) -> Seq<Node>;

/// What `SyntaxNode::descendants` yields for the node: the node itself and every node below
/// it, in pre-order.
pub uninterp spec fn descendants_of(node: Node) -> Seq<Node>;

/// What `SyntaxNode::text` returns for the node: the source text that it covers.
pub uninterp spec fn text_of(node: Node) -> Seq<char>;

/// What `SyntaxNode::text_range` returns for the node: the byte offsets in its file at which
/// it starts and ends.
pub uninterp spec fn span_of(node: Node) -> (nat, nat);

/// What `SyntaxNode::covering_element` returns for the range from `start` to `end`, where
/// that is a node; `None` where it is a token.
pub uninterp spec fn covering_of(tree: Node, start: nat, end: nat) -> Option<Node>;

/// Whether the first span lies within the second.
pub open spec fn within(inner: (nat, nat), outer: (nat, nat)) -> bool {
    outer.0 <= inner.0 && inner.1 <= outer.1
}

/// `Analysis::from_single_file`: a snapshot that holds the given text as its only file,
/// which is the root of its only crate.
#[verifier::external_body]
pub(crate) fn single_file(text: String) -> (made: (Analysis, FileId))
    ensures
        made == single_file_of(text@),
        holds_file(made.0, made.1),
{
    Analysis::from_single_file(text)
}

/// `Analysis::parse`, then `AstNode::syntax` on the file it returns: the root of the file's
/// syntax tree, which starts at offset 0; `Err` when the query was cancelled. A handle that
/// the snapshot does not hold makes the call panic.
#[verifier::external_body]
pub(crate) fn parse_file(an: &Analysis, file: FileId) -> (parsed: Result<Node, Cancelled>)
    requires
        holds_file(*an, file),
    ensures
        parsed matches Ok(root) ==> root == root_of(*an, file) && span_of(root).0 == 0,
{
    let source_file = an.parse(file)?;
    Ok(Node { inner: source_file.syntax().clone() })
}

/// `Analysis::goto_definition` at the given byte offset of the file: `Err` when the query
/// was cancelled, `Ok(None)` where no token stands at the offset, else the definitions of
/// what stands there, best first. Each lies in a file of the snapshot, and starts no later
/// than it ends. A handle that the snapshot does not hold, or an offset beyond the end of
/// the file, makes the call panic.
#[verifier::external_body]
pub(crate) fn goto_definition(an: &Analysis, file: FileId, offset: u32) -> (found: Result<
    Option<Vec<Definition>>,
    Cancelled,
>)
    requires
        holds_file(*an, file),
        offset <= file_len(*an, file),
    ensures
        found matches Ok(Some(targets)) ==> targets_at(*an, file, offset as nat) == Some(
            targets@,
        ),
        found matches Ok(None) ==> targets_at(*an, file, offset as nat) is None,
        found matches Ok(Some(targets)) ==> forall|i: int|
            0 <= i < targets.len() ==> holds_file(*an, (#[trigger] targets[i]).file_id)
                && targets[i].start <= targets[i].end,
{
    let position = FilePosition { file_id: file, offset: TextSize::from(offset) };
    let found = an.goto_definition(position)?;
    Ok(found.map(|range_info| range_info.info.into_iter().map(|target| Definition {
        name: target.name.to_string(),
        container_name: target.container_name.map(|container| container.to_string()),
        file_id: target.file_id,
        start: target.full_range.start().into(),
        end: target.full_range.end().into(),
    }).collect()))
}

/// `SyntaxNode::kind`, told apart as far as [`NodeKind`] goes.
#[verifier::external_body]
pub(crate) fn node_kind(node: &Node) -> (kind: NodeKind)
    ensures
        kind == kind_of(*node),
{
    match node.inner.kind() {
        SyntaxKind::FN => NodeKind::Fn,
        SyntaxKind::BLOCK_EXPR => NodeKind::BlockExpr,
        SyntaxKind::CALL_EXPR => NodeKind::CallExpr,
        SyntaxKind::PATH_EXPR => NodeKind::PathExpr,
        SyntaxKind::NAME => NodeKind::Name,
        SyntaxKind::VARIANT => NodeKind::Variant,
        SyntaxKind::STRUCT => NodeKind::Struct,
        SyntaxKind::TOKEN_TREE => NodeKind::TokenTree,
        SyntaxKind::IMPL => NodeKind::Impl,
        _ => NodeKind::Other,
    }
}

/// `SyntaxNode::kind`, written by its `Debug`: the name of the kind.
#[verifier::external_body]
pub(crate) fn node_kind_name(node: &Node) -> (name: String)
    ensures
        name@ == kind_name_of(*node),
{
    format!("{:?}", node.inner.kind())
}

/// `SyntaxNode::children`: the child nodes in source order. Each lies within its parent.
#[verifier::external_body]
pub(crate) fn node_children(node: &Node) -> (children: Vec<Node>)
    ensures
        children@ == children_of(*node),
        forall|i: int|
            0 <= i < children.len() ==> within(span_of(#[trigger] children[i]), span_of(*node)),
{
    node.inner.children().map(|inner| Node { inner }).collect()
}

/// `SyntaxNode::descendants`: the node and all nodes below it, in pre-order. Each lies
/// within the node.
#[verifier::external_body]
pub(crate) fn node_descendants(node: &Node) -> (nodes: Vec<Node>)
    ensures
        nodes@ == descendants_of(*node),
        forall|i: int|
            0 <= i < nodes.len() ==> within(span_of(#[trigger] nodes[i]), span_of(*node)),
{
    node.inner.descendants().map(|inner| Node { inner }).collect()
}

/// `SyntaxNode::text`, as a string of its own.
#[verifier::external_body]
pub(crate) fn node_text(node: &Node) -> (text: String)
    ensures
        text@ == text_of(*node),
{
    node.inner.text().to_string()
}

/// `SyntaxNode::text_range`: the offsets at which the node starts and ends; it starts no
/// later than it ends.
#[verifier::external_body]
pub(crate) fn node_span(node: &Node) -> (span: (u32, u32))
    ensures
        (span.0 as nat, span.1 as nat) == span_of(*node),
        span.0 <= span.1,
{
    let range = node.inner.text_range();
    (range.start().into(), range.end().into())
}

/// `SyntaxNode::covering_element`: the smallest element of the tree that covers the range;
/// `None` where that is a token. A node that it returns lies within the tree. A range
/// that ends before it starts, or does not lie within the tree, makes the call panic.
#[verifier::external_body]
pub(crate) fn covering_node(tree: &Node, start: u32, end: u32) -> (found: Option<Node>)
    requires
        start <= end,
        within((start as nat, end as nat), span_of(*tree)),
    ensures
        found == covering_of(*tree, start as nat, end as nat),
        found matches Some(node) ==> within(span_of(node), span_of(*tree)),
{
    match tree.inner.covering_element(TextRange::new(start.into(), end.into())) {
        NodeOrToken::Node(inner) => Some(Node { inner }),
        NodeOrToken::Token(_) => None,
    }
}

} // verus!
