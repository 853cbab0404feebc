//! The order of identities, and the nodes of a graph in that order.

use crate::graph::Graph;
use vstd::prelude::*;
use vstd::utf8::{encode_utf8, encode_utf8_decode_utf8};

verus! {

/// Whether the first string of bytes comes before the second: at the first byte in which
/// they differ it has the smaller one, or it ends where the second goes on.
pub open spec fn bytes_before(a: Seq<u8>, b: Seq<u8>) -> bool
    decreases a.len(),
{
    if b.len() == 0 {
        false
    } else if a.len() == 0 {
        true
    } else if a[0] != b[0] {
        a[0] < b[0]
    } else {
        bytes_before(a.drop_first(), b.drop_first())
    }
}

/// Whether the first identity comes before the second in the order of strings, which goes
/// by their bytes.
pub open spec fn before(a: Seq<char>, b: Seq<char>) -> bool {
    bytes_before(encode_utf8(a), encode_utf8(b))
}

/// The nodes of `order` with `node` among them, put in front of the first whose identity
/// it comes before.
pub open spec fn placed(labels: Seq<Seq<char>>, order: Seq<usize>, node: usize) -> Seq<usize>
    decreases order.len(),
{
    if order.len() == 0 {
        seq![node]
    } else if before(labels[node as int], labels[order[0] as int]) {
        seq![node] + order
    } else {
        seq![order[0]] + placed(labels, order.drop_first(), node)
    }
}

/// The first `upto` nodes in ascending order of their identities.
pub open spec fn by_identity(labels: Seq<Seq<char>>, upto: nat) -> Seq<usize>
    decreases upto,
{
    if upto == 0 {
        Seq::empty()
    } else {
        placed(labels, by_identity(labels, (upto - 1) as nat), (upto - 1) as usize)
    }
}

/// Whether no node of `order` stands behind one before whose identity its own comes.
pub open spec fn ascending(labels: Seq<Seq<char>>, order: Seq<usize>) -> bool {
    forall|j: int, k: int|
        0 <= j < k < order.len() ==> !before(
            labels[(#[trigger] order[k]) as int],
            labels[(#[trigger] order[j]) as int],
        )
}

/// What comes before something that comes before a third comes before the third.
pub proof fn lemma_bytes_before_chain(a: Seq<u8>, b: Seq<u8>, c: Seq<u8>)
    requires
        bytes_before(a, b),
        bytes_before(b, c),
    ensures
        bytes_before(a, c),
    decreases a.len(),
{
    if a.len() > 0 && a[0] == b[0] && b[0] == c[0] {
        lemma_bytes_before_chain(a.drop_first(), b.drop_first(), c.drop_first());
    }
}

/// Of two different strings of bytes, one comes before the other.
pub proof fn lemma_bytes_before_total(a: Seq<u8>, b: Seq<u8>)
    requires
        a != b,
    ensures
        bytes_before(a, b) || bytes_before(b, a),
    decreases a.len(),
{
    if a.len() > 0 && b.len() > 0 && a[0] == b[0] {
        if a.drop_first() == b.drop_first() {
            assert(a =~= seq![a[0]] + a.drop_first());
            assert(b =~= seq![b[0]] + b.drop_first());
        }
        lemma_bytes_before_total(a.drop_first(), b.drop_first());
    } else if a.len() == 0 && b.len() == 0 {
        assert(a =~= b);
    }
}

/// Nothing comes before itself.
pub proof fn lemma_bytes_before_strict(a: Seq<u8>)
    ensures
        !bytes_before(a, a),
    decreases a.len(),
{
    if a.len() > 0 {
        lemma_bytes_before_strict(a.drop_first());
    }
}

/// Placing a node keeps the order ascending, and adds the node and nothing else.
pub proof fn lemma_placed(labels: Seq<Seq<char>>, order: Seq<usize>, node: usize)
    requires
        ascending(labels, order),
    ensures
        ascending(labels, placed(labels, order, node)),
        placed(labels, order, node).len() == order.len() + 1,
        forall|x: usize| #[trigger]
            placed(labels, order, node).contains(x) <==> x == node || order.contains(x),
    decreases order.len(),
{
    let after = placed(labels, order, node);
    if order.len() == 0 {
        assert(after[0] == node);
    } else if before(labels[node as int], labels[order[0] as int]) {
        assert forall|j: int, k: int| 0 <= j < k < after.len() implies !before(
            labels[(#[trigger] after[k]) as int],
            labels[(#[trigger] after[j]) as int],
        ) by {
            if j == 0 {
                assert(after[k] == order[k - 1]);
                if k - 1 > 0 {
                    assert(!before(labels[order[k - 1] as int], labels[order[0] as int]));
                }
                if before(labels[after[k] as int], labels[node as int]) {
                    lemma_bytes_before_chain(
                        encode_utf8(labels[after[k] as int]),
                        encode_utf8(labels[node as int]),
                        encode_utf8(labels[order[0] as int]),
                    );
                    lemma_bytes_before_strict(encode_utf8(labels[order[0] as int]));
                }
            } else {
                assert(after[j] == order[j - 1] && after[k] == order[k - 1]);
            }
        }
        assert forall|x: usize| #[trigger] after.contains(x) <==> x == node || order.contains(
            x,
        ) by {
            if after.contains(x) {
                let at = choose|at: int| 0 <= at < after.len() && after[at] == x;
                if at > 0 {
                    assert(order[at - 1] == x);
                }
            }
            if x == node {
                assert(after[0] == x);
            }
            if order.contains(x) {
                let at = choose|at: int| 0 <= at < order.len() && order[at] == x;
                assert(after[at + 1] == x);
            }
        }
    } else {
        let rest = order.drop_first();
        assert forall|j: int, k: int| 0 <= j < k < rest.len() implies !before(
            labels[(#[trigger] rest[k]) as int],
            labels[(#[trigger] rest[j]) as int],
        ) by {
            assert(rest[j] == order[j + 1] && rest[k] == order[k + 1]);
        }
        lemma_placed(labels, rest, node);
        let tail = placed(labels, rest, node);
        assert forall|x: usize| #[trigger] after.contains(x) <==> x == node || order.contains(
            x,
        ) by {
            if after.contains(x) {
                let at = choose|at: int| 0 <= at < after.len() && after[at] == x;
                if at > 0 {
                    assert(tail[at - 1] == x);
                    assert(tail.contains(x));
                    if rest.contains(x) {
                        let r = choose|r: int| 0 <= r < rest.len() && rest[r] == x;
                        assert(order[r + 1] == x);
                    }
                } else {
                    assert(order[0] == x);
                }
            }
            if x == node {
                assert(tail.contains(x));
                let at = choose|at: int| 0 <= at < tail.len() && tail[at] == x;
                assert(after[at + 1] == x);
            }
            if order.contains(x) {
                let at = choose|at: int| 0 <= at < order.len() && order[at] == x;
                if at == 0 {
                    assert(after[0] == x);
                } else {
                    assert(rest[at - 1] == x);
                    assert(tail.contains(x));
                    let t = choose|t: int| 0 <= t < tail.len() && tail[t] == x;
                    assert(after[t + 1] == x);
                }
            }
        }
        assert forall|j: int, k: int| 0 <= j < k < after.len() implies !before(
            labels[(#[trigger] after[k]) as int],
            labels[(#[trigger] after[j]) as int],
        ) by {
            if j == 0 {
                assert(after[k] == tail[k - 1]);
                assert(tail.contains(tail[k - 1]));
                if after[k] != node {
                    assert(rest.contains(after[k]));
                    let r = choose|r: int| 0 <= r < rest.len() && rest[r] == after[k];
                    assert(order[r + 1] == after[k]);
                }
            } else {
                assert(after[j] == tail[j - 1] && after[k] == tail[k - 1]);
            }
        }
    }
}

/// The nodes in the order of their identities are all the nodes, each once, and none
/// stands behind one before whose identity its own comes.
pub proof fn lemma_by_identity(labels: Seq<Seq<char>>, upto: nat)
    requires
        upto <= usize::MAX,
    ensures
        ascending(labels, by_identity(labels, upto)),
        by_identity(labels, upto).len() == upto,
        forall|x: usize| #[trigger] by_identity(labels, upto).contains(x) <==> x < upto,
    decreases upto,
{
    if upto > 0 {
        lemma_by_identity(labels, (upto - 1) as nat);
        lemma_placed(labels, by_identity(labels, (upto - 1) as nat), (upto - 1) as usize);
    }
}

/// Different identities are different strings of bytes, so one comes before the other.
pub proof fn lemma_before_total(a: Seq<char>, b: Seq<char>)
    requires
        a != b,
    ensures
        before(a, b) || before(b, a),
{
    encode_utf8_decode_utf8(a);
    encode_utf8_decode_utf8(b);
    lemma_bytes_before_total(encode_utf8(a), encode_utf8(b));
}

/// Where no identity names two nodes, the nodes in the order of their identities stand in
/// strictly ascending order: each comes before all that stand behind it.
pub proof fn lemma_by_identity_strict(labels: Seq<Seq<char>>, upto: nat, j: int, k: int)
    requires
        labels.no_duplicates(),
        upto <= labels.len(),
        upto <= usize::MAX,
        0 <= j < k < upto,
    ensures
        before(
            labels[by_identity(labels, upto)[j] as int],
            labels[by_identity(labels, upto)[k] as int],
        ),
{
    let order = by_identity(labels, upto);
    lemma_by_identity(labels, upto);
    lemma_by_identity_distinct(labels, upto);
    assert(order.contains(order[j]) && order.contains(order[k]));
    assert(order[j] != order[k]);
    lemma_before_total(labels[order[j] as int], labels[order[k] as int]);
}

/// No node stands twice among the nodes in the order of their identities.
pub proof fn lemma_by_identity_distinct(labels: Seq<Seq<char>>, upto: nat)
    requires
        upto <= usize::MAX,
    ensures
        by_identity(labels, upto).no_duplicates(),
    decreases upto,
{
    if upto > 0 {
        let order = by_identity(labels, (upto - 1) as nat);
        lemma_by_identity_distinct(labels, (upto - 1) as nat);
        lemma_by_identity(labels, (upto - 1) as nat);
        assert(!order.contains((upto - 1) as usize));
        lemma_placed_distinct(labels, order, (upto - 1) as usize);
    }
}

/// Placing a node that is not among the others leaves no node twice.
proof fn lemma_placed_distinct(labels: Seq<Seq<char>>, order: Seq<usize>, node: usize)
    requires
        order.no_duplicates(),
        !order.contains(node),
    ensures
        placed(labels, order, node).no_duplicates(),
    decreases order.len(),
{
    let after = placed(labels, order, node);
    if order.len() == 0 {
    } else if before(labels[node as int], labels[order[0] as int]) {
        assert forall|i: int, j: int| 0 <= i < after.len() && 0 <= j < after.len() && i
            != j implies after[i] != after[j] by {
            if i > 0 {
                assert(after[i] == order[i - 1]);
                assert(order.contains(order[i - 1]));
            }
            if j > 0 {
                assert(after[j] == order[j - 1]);
                assert(order.contains(order[j - 1]));
            }
        }
    } else {
        let rest = order.drop_first();
        assert forall|i: int, j: int| 0 <= i < rest.len() && 0 <= j < rest.len() && i
            != j implies rest[i] != rest[j] by {
            assert(rest[i] == order[i + 1] && rest[j] == order[j + 1]);
        }
        assert(!rest.contains(node)) by {
            if rest.contains(node) {
                let at = choose|at: int| 0 <= at < rest.len() && rest[at] == node;
                assert(order[at + 1] == node);
            }
        }
        lemma_placed_distinct(labels, rest, node);
        let tail = placed(labels, rest, node);
        lemma_tail_holds(labels, rest, node);
        assert forall|i: int, j: int| 0 <= i < after.len() && 0 <= j < after.len() && i
            != j implies after[i] != after[j] by {
            if i > 0 && j > 0 {
                assert(after[i] == tail[i - 1] && after[j] == tail[j - 1]);
            } else if i == 0 {
                assert(after[j] == tail[j - 1]);
                assert(tail.contains(tail[j - 1]));
                if tail[j - 1] != node {
                    let at = choose|at: int| 0 <= at < rest.len() && rest[at] == tail[j - 1];
                    assert(order[at + 1] == tail[j - 1]);
                }
            } else {
                assert(after[i] == tail[i - 1]);
                assert(tail.contains(tail[i - 1]));
                if tail[i - 1] != node {
                    let at = choose|at: int| 0 <= at < rest.len() && rest[at] == tail[i - 1];
                    assert(order[at + 1] == tail[i - 1]);
                }
            }
        }
    }
}

/// What stands among the nodes once one is placed is that node or stood there before.
proof fn lemma_tail_holds(labels: Seq<Seq<char>>, order: Seq<usize>, node: usize)
    ensures
        forall|x: usize| #[trigger]
            placed(labels, order, node).contains(x) ==> x == node || order.contains(x),
    decreases order.len(),
{
    let after = placed(labels, order, node);
    if order.len() == 0 {
        assert forall|x: usize| #[trigger] after.contains(x) implies x == node by {
            let at = choose|at: int| 0 <= at < after.len() && after[at] == x;
        }
    } else if before(labels[node as int], labels[order[0] as int]) {
        assert forall|x: usize| #[trigger] after.contains(x) implies x == node || order.contains(
            x,
        ) by {
            let at = choose|at: int| 0 <= at < after.len() && after[at] == x;
            if at > 0 {
                assert(order[at - 1] == x);
            }
        }
    } else {
        let rest = order.drop_first();
        lemma_tail_holds(labels, rest, node);
        let tail = placed(labels, rest, node);
        assert forall|x: usize| #[trigger] after.contains(x) implies x == node || order.contains(
            x,
        ) by {
            let at = choose|at: int| 0 <= at < after.len() && after[at] == x;
            if at > 0 {
                assert(tail[at - 1] == x);
                assert(tail.contains(x));
                if x != node {
                    let r = choose|r: int| 0 <= r < rest.len() && rest[r] == x;
                    assert(order[r + 1] == x);
                }
            } else {
                assert(order[0] == x);
            }
        }
    }
}

/// Whether the first string comes before the second in the order of strings.
pub fn precedes(a: &str, b: &str) -> (first: bool)
    ensures
        first == before(a@, b@),
{
    let left = a.as_bytes();
    let right = b.as_bytes();
    let mut i: usize = 0;
    assert(left@.skip(0) =~= left@ && right@.skip(0) =~= right@);
    while i < left.len() && i < right.len()
        invariant
            i <= left.len(),
            i <= right.len(),
            left@ == encode_utf8(a@),
            right@ == encode_utf8(b@),
            before(a@, b@) == bytes_before(left@.skip(i as int), right@.skip(i as int)),
        decreases left.len() - i,
    {
        proof {
            assert(left@.skip(i as int)[0] == left[i as int]);
            assert(right@.skip(i as int)[0] == right[i as int]);
            assert(left@.skip(i as int).drop_first() =~= left@.skip(i + 1));
            assert(right@.skip(i as int).drop_first() =~= right@.skip(i + 1));
        }
        if left[i] != right[i] {
            return left[i] < right[i];
        }
        i += 1;
    }
    i < right.len()
}

/// Placing a node puts it at the first place where it comes before the node that stands
/// there, or at the end.
proof fn lemma_placed_at(labels: Seq<Seq<char>>, order: Seq<usize>, node: usize, at: int)
    requires
        0 <= at <= order.len(),
        forall|j: int|
            0 <= j < at ==> !before(labels[node as int], labels[(#[trigger] order[j]) as int]),
        at < order.len() ==> before(labels[node as int], labels[order[at] as int]),
    ensures
        placed(labels, order, node) == order.insert(at, node),
    decreases order.len(),
{
    if order.len() == 0 {
        assert(order.insert(at, node) =~= seq![node]);
    } else if at == 0 {
        assert(order.insert(0, node) =~= seq![node] + order);
    } else {
        let rest = order.drop_first();
        assert forall|j: int| 0 <= j < at - 1 implies !before(
            labels[node as int],
            labels[(#[trigger] rest[j]) as int],
        ) by {
            assert(rest[j] == order[j + 1]);
        }
        lemma_placed_at(labels, rest, node, at - 1);
        assert(order.insert(at, node) =~= seq![order[0]] + rest.insert(at - 1, node));
    }
}

/// The nodes of the graph in ascending order of their identities.
pub fn nodes_by_identity(graph: &Graph) -> (order: Vec<usize>)
    ensures
        order@ == by_identity(graph@.labels, graph@.len()),
        order.len() == graph@.len(),
        forall|k: int| 0 <= k < order.len() ==> (#[trigger] order[k]) < graph@.len(),
{
    let count = graph.node_count();
    let mut order: Vec<usize> = Vec::new();
    let mut node: usize = 0;
    while node < count
        invariant
            node <= count,
            count == graph@.len(),
            order.len() == node,
            order@ == by_identity(graph@.labels, node as nat),
            forall|k: int| 0 <= k < order.len() ==> (#[trigger] order[k]) < node,
        decreases count - node,
    {
        let mut at: usize = 0;
        while at < order.len() && !precedes(graph.label(node).as_str(), graph.label(order[at]).as_str())
            invariant
                at <= order.len(),
                node < count,
                count == graph@.len(),
                forall|k: int| 0 <= k < order.len() ==> (#[trigger] order[k]) < node,
                forall|j: int|
                    0 <= j < at ==> !before(
                        graph@.labels[node as int],
                        graph@.labels[(#[trigger] order[j]) as int],
                    ),
            decreases order.len() - at,
        {
            at += 1;
        }
        proof {
            lemma_placed_at(graph@.labels, order@, node, at as int);
        }
        order.insert(at, node);
        node += 1;
    }
    order
}

} // verus!
