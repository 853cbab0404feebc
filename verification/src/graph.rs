//! The call graph: nodes named by their identity, and the set of callees of each.

use std::collections::{HashMap, HashSet};
use vstd::prelude::*;
use vstd::utf8::encode_utf8;

verus! {

/// What a call graph holds, as mathematics: `labels[i]` is the identity of node `i`, and
/// `edges[i]` the indices of the nodes that node `i` calls.
pub struct GraphView {
    pub name: Seq<char>,
    pub labels: Seq<Seq<char>>,
    pub edges: Seq<Set<usize>>,
}

impl GraphView {
    /// No identity names two nodes, every node has its set of callees, and every callee is a
    /// node.
    pub open spec fn well_formed(self) -> bool {
        &&& self.labels.no_duplicates()
        &&& self.edges.len() == self.labels.len()
        &&& forall|i: int, d: usize|
            0 <= i < self.edges.len() && #[trigger] self.edges[i].contains(d) ==> d
                < self.labels.len()
    }

    /// The graph of the given name without any node.
    pub open spec fn empty(name: Seq<char>) -> GraphView {
        GraphView { name, labels: Seq::empty(), edges: Seq::empty() }
    }

    /// The number of nodes.
    pub open spec fn len(self) -> nat {
        self.labels.len()
    }

    /// Whether a node has the given identity.
    pub open spec fn contains(self, identity: Seq<char>) -> bool {
        exists|i: int| 0 <= i < self.labels.len() && self.labels[i] == identity
    }

    /// The index of the node with the given identity, where there is one.
    pub open spec fn index_of(self, identity: Seq<char>) -> int {
        choose|i: int| 0 <= i < self.labels.len() && self.labels[i] == identity
    }

    /// Whether node `src` calls node `dst`.
    pub open spec fn has_edge(self, src: int, dst: int) -> bool {
        &&& 0 <= src < self.edges.len()
        &&& 0 <= dst <= usize::MAX
        &&& self.edges[src].contains(dst as usize)
    }

    /// The graph with a node of the given identity: itself where it has one, else with one
    /// more node, which gets the next index and calls nothing.
    pub open spec fn with_node(self, identity: Seq<char>) -> GraphView {
        if self.contains(identity) {
            self
        } else {
            GraphView {
                name: self.name,
                labels: self.labels.push(identity),
                edges: self.edges.push(Set::empty()),
            }
        }
    }

    /// Whether this graph has all that `before` had: its name, its nodes under their
    /// indices, and its edges.
    pub open spec fn extends(self, before: GraphView) -> bool {
        &&& self.name == before.name
        &&& before.labels.len() <= self.labels.len()
        &&& forall|i: int| 0 <= i < before.labels.len() ==> self.labels[i] == before.labels[i]
        &&& forall|i: int, d: int| before.has_edge(i, d) ==> self.has_edge(i, d)
    }

    /// The graph with a node of the given identity and an edge to it from node `src`.
    pub open spec fn with_edge(self, src: int, identity: Seq<char>) -> GraphView {
        let g = self.with_node(identity);
        GraphView {
            name: g.name,
            labels: g.labels,
            edges: g.edges.update(src, g.edges[src].insert(g.index_of(identity) as usize)),
        }
    }
}

/// A graph keeps what it had when a node is added.
pub proof fn lemma_with_node_extends(g: GraphView, identity: Seq<char>)
    requires
        g.well_formed(),
    ensures
        g.with_node(identity).well_formed(),
        g.with_node(identity).extends(g),
        g.with_node(identity).contains(identity),
        forall|i: int, d: int| g.with_node(identity).has_edge(i, d) ==> g.has_edge(i, d),
{
    let after = g.with_node(identity);
    if !g.contains(identity) {
        assert(after.labels[g.labels.len() as int] == identity);
    }
}

/// A graph keeps what it had when an edge is added, and gains no edge but that one.
pub proof fn lemma_with_edge_extends(g: GraphView, src: int, identity: Seq<char>)
    requires
        g.well_formed(),
        g.len() <= usize::MAX,
        0 <= src < g.len(),
    ensures
        g.with_edge(src, identity).well_formed(),
        g.with_edge(src, identity).extends(g),
        g.with_edge(src, identity).contains(identity),
        g.with_edge(src, identity).index_of(identity) == g.with_node(identity).index_of(identity),
        forall|i: int, d: int|
            g.with_edge(src, identity).has_edge(i, d) && !g.has_edge(i, d) ==> i == src && d
                == g.with_node(identity).index_of(identity),
        g.with_edge(src, identity).has_edge(src, g.with_node(identity).index_of(identity)),
{
    lemma_with_node_extends(g, identity);
    let mid = g.with_node(identity);
    let after = g.with_edge(src, identity);
    let dst = mid.index_of(identity);
    assert(0 <= dst < mid.labels.len() && mid.labels[dst] == identity);
    assert(after.labels == mid.labels);
    assert forall|i: int, d: usize|
        0 <= i < after.edges.len() && #[trigger] after.edges[i].contains(d) implies d
        < after.labels.len() by {
        if i == src && d == dst as usize {
        } else {
            assert(mid.edges[i].contains(d));
        }
    }
    assert forall|i: int, d: int| g.has_edge(i, d) implies after.has_edge(i, d) by {
        assert(mid.has_edge(i, d));
    }
    assert forall|i: int, d: int| after.has_edge(i, d) && !g.has_edge(i, d) implies i == src && d
        == dst by {
        if !(i == src && d == dst) {
            assert(mid.has_edge(i, d));
        }
    }
}

/// What extends an extension of a graph extends the graph.
pub proof fn lemma_extends_chain(first: GraphView, second: GraphView, third: GraphView)
    requires
        second.extends(first),
        third.extends(second),
    ensures
        third.extends(first),
{
}

/// A node keeps its identity and its index in what extends a well-formed graph.
pub proof fn lemma_extends_keeps(before: GraphView, after: GraphView, identity: Seq<char>)
    requires
        after.well_formed(),
        after.extends(before),
        before.contains(identity),
    ensures
        after.contains(identity),
        after.index_of(identity) == before.index_of(identity),
{
    let i = before.index_of(identity);
    assert(after.labels[i] == identity);
    let j = after.index_of(identity);
    assert(0 <= j < after.labels.len() && after.labels[j] == identity);
}

/// An identity names one node for good: once a graph has a node for it, asking for that node
/// again, in that graph or in any that extends it, adds nothing and gives the same index.
pub proof fn lemma_same_identity_same_node(g: GraphView, later: GraphView, identity: Seq<char>)
    requires
        g.well_formed(),
        later.well_formed(),
        later.extends(g.with_node(identity)),
    ensures
        later.with_node(identity) == later,
        later.index_of(identity) == g.with_node(identity).index_of(identity),
{
    lemma_with_node_extends(g, identity);
    lemma_extends_keeps(g.with_node(identity), later, identity);
}

/// An edge stands once: recording a call that is recorded already changes nothing, so the
/// caller has as many callees as before.
pub proof fn lemma_connect_twice(g: GraphView, src: int, identity: Seq<char>)
    requires
        g.well_formed(),
        g.len() <= usize::MAX,
        0 <= src < g.len(),
    ensures
        g.with_edge(src, identity).with_edge(src, identity) == g.with_edge(src, identity),
        g.with_edge(src, identity).with_edge(src, identity).edges[src].len() == g.with_edge(
            src,
            identity,
        ).edges[src].len(),
{
    lemma_with_edge_extends(g, src, identity);
    let once = g.with_edge(src, identity);
    let twice = once.with_edge(src, identity);
    assert(once.with_node(identity) == once);
    let dst = once.index_of(identity);
    assert(once.has_edge(src, dst));
    assert(once.edges[src].insert(dst as usize) =~= once.edges[src]);
    assert(twice.edges =~= once.edges);
}

/// How a byte is taken into the hash of the bytes before it.
spec fn mixed(hash: u64, byte: u8) -> u64 {
    (hash ^ (byte as u64)).wrapping_mul(0x0000_0100_0000_01b3)
}

/// The hash of a string of bytes.
spec fn hash_of_bytes(bytes: Seq<u8>) -> u64
    decreases bytes.len(),
{
    if bytes.len() == 0 {
        0xcbf2_9ce4_8422_2325
    } else {
        mixed(hash_of_bytes(bytes.drop_last()), bytes.last())
    }
}

/// The hash of an identity, under which its node is filed.
spec fn hash_of(identity: Seq<char>) -> u64 {
    hash_of_bytes(encode_utf8(identity))
}

/// The hash of an identity.
fn hash(identity: &str) -> (hash: u64)
    ensures
        hash == hash_of(identity@),
{
    let bytes = identity.as_bytes();
    let mut hash: u64 = 0xcbf2_9ce4_8422_2325;
    let mut i: usize = 0;
    while i < bytes.len()
        invariant
            i <= bytes.len(),
            bytes@ == encode_utf8(identity@),
            hash == hash_of_bytes(bytes@.take(i as int)),
        decreases bytes.len() - i,
    {
        assert(bytes@.take(i + 1).drop_last() =~= bytes@.take(i as int));
        hash = (hash ^ (bytes[i] as u64)).wrapping_mul(0x0000_0100_0000_01b3);
        i += 1;
    }
    assert(bytes@.take(bytes.len() as int) =~= bytes@);
    hash
}

/// A directed graph of calls. Its nodes are numbered from 0 in the order in which they were
/// first seen.
pub struct Graph {
    name: String,
    labels: Vec<String>,
    adj_list: Vec<HashSet<usize>>,
    /// Under the hash of each identity, the nodes whose identities have that hash.
    filed: HashMap<u64, Vec<usize>>,
}

impl View for Graph {
    type V = GraphView;

    closed spec fn view(&self) -> GraphView {
        GraphView {
            name: self.name@,
            labels: Seq::new(self.labels@.len(), |i: int| self.labels@[i]@),
            edges: Seq::new(self.adj_list@.len(), |i: int| self.adj_list@[i]@),
        }
    }
}

impl Graph {
    /// Whether the nodes are filed by the hashes of their identities: each node under the
    /// hash of its own, and nothing else under any hash.
    pub closed spec fn filed_by_hash(&self) -> bool {
        &&& forall|i: int|
            0 <= i < self.labels@.len() ==> self.filed@.contains_key(
                hash_of(#[trigger] self.labels@[i]@),
            ) && self.filed@[hash_of(self.labels@[i]@)]@.contains(i as usize)
        &&& forall|h: u64, k: int|
            self.filed@.contains_key(h) && 0 <= k < self.filed@[h]@.len() ==> (
            #[trigger] self.filed@[h]@[k]) < self.labels@.len() && hash_of(
                self.labels@[self.filed@[h]@[k] as int]@,
            ) == h
    }

    /// The invariant of the type: see [`GraphView::well_formed`]; and the nodes are filed
    /// so that they are found again by their identities.
    pub open spec fn wf(&self) -> bool {
        &&& self@.well_formed()
        &&& self.filed_by_hash()
    }

    /// The nodes of a graph can be counted in a `usize`.
    pub proof fn lemma_len_fits(&self)
        ensures
            self@.len() <= usize::MAX,
    {
        assert(self@.labels.len() == self.labels.len());
    }

    /// The graph of the crate with the given name, without any node.
    pub fn new(name: String) -> (graph: Self)
        ensures
            graph.wf(),
            graph@ == GraphView::empty(name@),
    {
        let graph = Self { name, labels: Vec::new(), adj_list: Vec::new(), filed: HashMap::new() };
        assert(graph@.labels =~= Seq::empty());
        assert(graph@.edges =~= Seq::empty());
        graph
    }

    /// The name of the crate whose calls the graph holds.
    pub fn name(&self) -> (name: &String)
        ensures
            name@ == self@.name,
    {
        &self.name
    }

    /// The number of nodes.
    pub fn node_count(&self) -> (count: usize)
        ensures
            count == self@.len(),
    {
        proof {
            assert(self@.labels.len() == self.labels.len());
        }
        self.labels.len()
    }

    /// The identity of the node at `index`.
    pub fn label(&self, index: usize) -> (label: &String)
        requires
            index < self@.len(),
        ensures
            label@ == self@.labels[index as int],
    {
        &self.labels[index]
    }

    /// Whether node `src` calls node `dst`.
    pub fn has_edge(&self, src: usize, dst: usize) -> (found: bool)
        ensures
            found == self@.has_edge(src as int, dst as int),
    {
        if src < self.adj_list.len() {
            self.adj_list[src].contains(&dst)
        } else {
            false
        }
    }

    /// The index of the node with the given identity, if the graph has one.
    pub fn lookup(&self, name: &String) -> (found: Option<usize>)
        requires
            self.wf(),
        ensures
            found is Some <==> self@.contains(name@),
            found matches Some(idx) ==> idx == self@.index_of(name@) && idx < self@.len(),
    {
        let hash = hash(name.as_str());
        let Some(nodes) = self.filed.get(&hash) else {
            proof {
                if self@.contains(name@) {
                    let at = self@.index_of(name@);
                    assert(self.labels@[at]@ == name@);
                }
            }
            return None;
        };
        let mut k: usize = 0;
        while k < nodes.len()
            invariant
                self.wf(),
                k <= nodes.len(),
                hash == hash_of(name@),
                self.filed@.contains_key(hash),
                self.filed@[hash] == *nodes,
                forall|j: int| 0 <= j < k ==> self@.labels[nodes[j] as int] != name@,
            decreases nodes.len() - k,
        {
            let idx = nodes[k];
            assert(idx == self.filed@[hash]@[k as int]);
            if self.labels[idx] == *name {
                proof {
                    assert(self@.labels[idx as int] == name@);
                    let at = self@.index_of(name@);
                    assert(0 <= at < self@.labels.len() && self@.labels[at] == name@);
                }
                return Some(idx);
            }
            k += 1;
        }
        proof {
            if self@.contains(name@) {
                let at = self@.index_of(name@);
                assert(self@.labels.len() == self.labels.len());
                assert(self.labels@[at]@ == name@);
                assert(self.filed@[hash]@.contains(at as usize));
                let j = choose|j: int| 0 <= j < nodes@.len() && nodes@[j] == at as usize;
                assert(self@.labels[nodes[j] as int] == name@);
            }
        }
        None
    }

    /// The index of the node with the given identity, which is made if the graph has none.
    pub fn get_or_insert(&mut self, name: String) -> (idx: usize)
        requires
            old(self).wf(),
        ensures
            final(self).wf(),
            final(self)@ == old(self)@.with_node(name@),
            idx == final(self)@.index_of(name@),
            idx < final(self)@.len(),
    {
        match self.lookup(&name) {
            Some(idx) => idx,
            None => self.insert(name),
        }
    }

    /// Makes a node for an identity that the graph does not hold yet, and returns its index:
    /// the next one.
    pub fn insert(&mut self, name: String) -> (index: usize)
        requires
            old(self).wf(),
            !old(self)@.contains(name@),
        ensures
            final(self).wf(),
            final(self)@ == old(self)@.with_node(name@),
            index == old(self)@.len(),
            index == final(self)@.index_of(name@),
    {
        let index = self.adj_list.len();
        let hash = hash(name.as_str());
        let mut nodes = match self.filed.remove(&hash) {
            Some(nodes) => nodes,
            None => Vec::new(),
        };
        nodes.push(index);
        self.filed.insert(hash, nodes);
        self.adj_list.push(HashSet::new());
        self.labels.push(name);
        proof {
            assert(self@.labels =~= old(self)@.labels.push(name@));
            assert(self@.edges =~= old(self)@.edges.push(Set::empty()));
            assert(self@.labels[index as int] == name@);
            assert forall|i: int| 0 <= i < self.labels@.len() implies self.filed@.contains_key(
                hash_of(#[trigger] self.labels@[i]@),
            ) && self.filed@[hash_of(self.labels@[i]@)]@.contains(i as usize) by {
                if i < index {
                    assert(self.labels@[i] == old(self).labels@[i]);
                    let h = hash_of(self.labels@[i]@);
                    assert(old(self).filed@[h]@.contains(i as usize));
                    if h == hash {
                        let at = choose|at: int|
                            0 <= at < old(self).filed@[h]@.len() && old(self).filed@[h]@[at]
                                == i as usize;
                        assert(self.filed@[h]@[at] == i as usize);
                    }
                } else {
                    assert(self.filed@[hash]@[self.filed@[hash]@.len() - 1] == index);
                }
            }
            assert forall|h: u64, k: int|
                self.filed@.contains_key(h) && 0 <= k < self.filed@[h]@.len() implies (
            #[trigger] self.filed@[h]@[k]) < self.labels@.len() && hash_of(
                self.labels@[self.filed@[h]@[k] as int]@,
            ) == h by {
                if h == hash {
                    if k < self.filed@[h]@.len() - 1 {
                        assert(old(self).filed@.contains_key(h));
                        assert(self.filed@[h]@[k] == old(self).filed@[h]@[k]);
                    }
                } else {
                    assert(old(self).filed@.contains_key(h));
                    assert(self.filed@[h] == old(self).filed@[h]);
                }
            }
        }
        index
    }

    /// Records that node `src` calls the node with the identity `dst`, which is made if the
    /// graph has none. A call that is recorded already changes nothing.
    pub fn connect(&mut self, src: usize, dst: String)
        requires
            old(self).wf(),
            src < old(self)@.len(),
        ensures
            final(self).wf(),
            final(self)@ == old(self)@.with_edge(src as int, dst@),
    {
        let dst_idx = self.get_or_insert(dst);
        let ghost mid = self@;
        self.adj_list[src].insert(dst_idx);
        proof {
            assert(self@.labels =~= mid.labels);
            assert(self@.edges =~= mid.edges.update(
                src as int,
                mid.edges[src as int].insert(dst_idx),
            ));
        }
    }
}

} // verus!
