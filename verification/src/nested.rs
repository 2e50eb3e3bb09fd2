//! Nested lists, and their flattening into a plain list.

use vstd::prelude::*;

verus! {

/// A node of a nested list: one element, or a list of nodes.
pub enum Node<T> {
    /// A leaf: one element.
    One(T),
    /// A branch: the nodes below it, in order. There may be none.
    Many(Vec<Node<T>>),
}

impl<T> Node<T> {
    /// The elements below the node, in depth-first order from left to right.
    pub open spec fn leaves(self) -> Seq<T>
        decreases self,
    {
        match self {
            Node::One(a) => seq![a],
            Node::Many(nodes) => forest_leaves(nodes@),
        }
    }

    /// The number of elements below the node.
    pub open spec fn leaf_count(self) -> nat
        decreases self,
    {
        match self {
            Node::One(_) => 1,
            Node::Many(nodes) => forest_leaf_count(nodes@),
        }
    }
}

/// The elements of a list of sibling nodes: those of each node in turn.
pub open spec fn forest_leaves<T>(nodes: Seq<Node<T>>) -> Seq<T>
    decreases nodes,
{
    if nodes.len() == 0 {
        Seq::empty()
    } else {
        forest_leaves(nodes.drop_last()) + nodes.last().leaves()
    }
}

/// The number of elements of a list of sibling nodes.
pub open spec fn forest_leaf_count<T>(nodes: Seq<Node<T>>) -> nat
    decreases nodes,
{
    if nodes.len() == 0 {
        0
    } else {
        forest_leaf_count(nodes.drop_last()) + nodes.last().leaf_count()
    }
}

/// Flattening goes list by list: the elements of two lists of nodes, one after
/// the other, are those of the first and then those of the second.
pub proof fn lemma_forest_leaves_concat<T>(left: Seq<Node<T>>, right: Seq<Node<T>>)
    ensures
        forest_leaves(left + right) == forest_leaves(left) + forest_leaves(right),
    decreases right.len(),
{
    if right.len() == 0 {
        assert(left + right =~= left);
    } else {
        lemma_forest_leaves_concat(left, right.drop_last());
        assert((left + right).drop_last() =~= left + right.drop_last());
        assert((left + right).last() == right.last());
    }
}

/// A node has as many elements below it as its count says.
pub proof fn lemma_node_leaf_count<T>(node: Node<T>)
    ensures
        node.leaves().len() == node.leaf_count(),
    decreases node,
{
    match node {
        Node::One(_) => {},
        Node::Many(nodes) => {
            lemma_forest_leaf_count(nodes@);
        },
    }
}

/// A list of sibling nodes flattens to as many elements as it has leaves,
/// however deep they lie.
pub proof fn lemma_forest_leaf_count<T>(nodes: Seq<Node<T>>)
    ensures
        forest_leaves(nodes).len() == forest_leaf_count(nodes),
    decreases nodes,
{
    if nodes.len() > 0 {
        lemma_forest_leaf_count(nodes.drop_last());
        lemma_node_leaf_count(nodes.last());
    }
}

/// A list of nodes that are all single elements flattens to those elements,
/// in their order.
pub proof fn lemma_flat_forest_unchanged<T>(nodes: Seq<Node<T>>)
    requires
        forall|i: int| 0 <= i < nodes.len() ==> nodes[i] is One,
    ensures
        forest_leaves(nodes) == Seq::new(nodes.len(), |i: int| nodes[i]->One_0),
    decreases nodes.len(),
{
    if nodes.len() > 0 {
        lemma_flat_forest_unchanged(nodes.drop_last());
        assert(nodes.last().leaves() == seq![nodes.last()->One_0]);
    }
}

/// `list` followed by the elements of `nodes`.
fn flatten_onto<T: Copy>(nodes: &[Node<T>], list: Vec<T>) -> (flat: Vec<T>)
    ensures
        flat@ == list@ + forest_leaves(nodes@),
    decreases nodes@,
{
    let mut flat: Vec<T> = list;
    let mut i: usize = 0;
    while i < nodes.len()
        invariant
            i <= nodes@.len(),
            flat@ == list@ + forest_leaves(nodes@.take(i as int)),
        decreases nodes@.len() - i,
    {
        proof {
            let next = nodes@.take(i + 1);
            assert(next.drop_last() =~= nodes@.take(i as int));
            assert(forest_leaves(next) == forest_leaves(next.drop_last()) + next.last().leaves());
        }
        match &nodes[i] {
            Node::One(a) => {
                flat.push(*a);
            },
            Node::Many(children) => {
                flat = flatten_onto(children.as_slice(), flat);
            },
        }
        i += 1;
    }
    assert(nodes@.take(i as int) =~= nodes@);
    flat
}

/// The elements of the nested list `list` as a plain list: depth first, from
/// left to right. A `Many` without nodes adds nothing.
pub fn flatten<T: Copy>(list: &[Node<T>]) -> (flat: Vec<T>)
    ensures
        flat@ == forest_leaves(list@),
        flat@.len() == forest_leaf_count(list@),
{
    proof {
        lemma_forest_leaf_count(list@);
    }
    flatten_onto(list, Vec::new())
}

} // verus!
