//! Pre-order traversal of a forest, yielding each label with the node's
//! position in the tree structure.

use vstd::prelude::*;

use crate::forest::Node;

verus! {

/// Describes whether a node is a root, first child, or non-root right sibling.
#[derive(PartialEq, Eq, Structural, Debug, Clone, Copy)]
pub enum NodeType {
    Root,
    Child,
    Sibling,
}

/// Describes the position of a node in a forest (used for display).
#[derive(PartialEq, Eq, Structural, Debug, Clone, Copy)]
pub struct NodePosition {
    pub node_type: NodeType,
    pub is_last: bool,
}

/// The role that the next sibling of a node of role `t` has.
pub open spec fn sibling_type(t: NodeType) -> NodeType {
    match t {
        NodeType::Root => NodeType::Root,
        _ => NodeType::Sibling,
    }
}

/// A node seen through references, with its position in the forest.
struct NodeRef<'a> {
    label: &'a str,
    child: &'a Node,
    sibling: &'a Node,
    pos: NodePosition,
}

/// The labels and positions that the traversal yields for `r` and everything after it.
spec fn ref_entries(r: NodeRef) -> Seq<(Seq<char>, NodePosition)> {
    seq![(r.label@, r.pos)] + r.child.entries(NodeType::Child) + r.sibling.entries(sibling_type(r.pos.node_type))
}

/// The entries still due from a work stack, top of the stack first.
spec fn stack_entries(s: Seq<NodeRef>) -> Seq<(Seq<char>, NodePosition)>
    decreases s.len(),
{
    if s.len() == 0 {
        Seq::empty()
    } else {
        ref_entries(s.last()) + stack_entries(s.drop_last())
    }
}

proof fn lemma_stack_push(s: Seq<NodeRef>, n: NodeRef)
    ensures
        stack_entries(s.push(n)) == ref_entries(n) + stack_entries(s),
{
    assert(s.push(n).drop_last() =~= s);
}

impl Node {
    /// The labels of the forest in pre-order, each with its position, when
    /// this node has role `t`.
    pub open spec fn entries(self, t: NodeType) -> Seq<(Seq<char>, NodePosition)>
        decreases self,
    {
        match self {
            Node::Empty => Seq::empty(),
            Node::Node { label, child, sibling, .. } =>
                seq![(label@, NodePosition { node_type: t, is_last: *sibling is Empty })]
                    + child.entries(NodeType::Child) + sibling.entries(sibling_type(t)),
        }
    }

    /// Create a corresponding NodeRef from a Node if non-empty.
    fn to_node<'a>(&'a self, node_type: NodeType) -> (r: Option<NodeRef<'a>>)
        ensures
            *self is Empty ==> r is None,
            *self is Node ==> (r matches Some(n) && ref_entries(n) == self.entries(node_type)),
    {
        match self {
            Self::Empty => None,
            Self::Node { label, child, sibling, .. } => {
                let is_last = match **sibling {
                    Self::Empty => true,
                    Self::Node { .. } => false,
                };
                let pos = NodePosition { node_type, is_last };
                Some(NodeRef { label: label.as_str(), child: &**child, sibling: &**sibling, pos })
            },
        }
    }

    /// Return an iterator over node labels in pre-order.
    pub fn iter(&self) -> (r: PreOrderIter<'_>)
        ensures
            r.remaining() == self.entries(NodeType::Root),
    {
        let mut stack = Vec::new();
        if let Some(node) = self.to_node(NodeType::Root) {
            stack.push(node);
        }
        let r = PreOrderIter { stack };
        proof {
            if *self is Node {
                assert(r.stack@.drop_last() =~= Seq::<NodeRef>::empty());
                assert(stack_entries(r.stack@.drop_last()) =~= Seq::<(Seq<char>, NodePosition)>::empty());
                assert(r.remaining() =~= self.entries(NodeType::Root));
            } else {
                assert(r.remaining() =~= self.entries(NodeType::Root));
            }
        }
        r
    }

}

/// Iterator type returning node labels/positions in pre-order.
pub struct PreOrderIter<'a> {
    stack: Vec<NodeRef<'a>>,
}

impl<'a> PreOrderIter<'a> {
    /// The labels and positions not yet returned, in order.
    pub closed spec fn remaining(&self) -> Seq<(Seq<char>, NodePosition)> {
        stack_entries(self.stack@)
    }

    /// Return the next label and position in pre-order, if any is left.
    pub fn next(&mut self) -> (r: Option<(&'a str, NodePosition)>)
        ensures
            old(self).remaining().len() == 0 ==> r is None && final(self).remaining() == old(self).remaining(),
            old(self).remaining().len() > 0 ==> (r matches Some(item) && (item.0@, item.1) == old(self).remaining()[0]
                && final(self).remaining() == old(self).remaining().drop_first()),
    {
        let ghost before = self.stack@;
        match self.stack.pop() {
            None => {
                proof {
                    assert(before.len() == 0);
                }
                None
            },
            Some(top) => {
                let NodeRef { label, child, sibling, pos } = top;
                let sibling_kind = match pos.node_type {
                    NodeType::Root => NodeType::Root,
                    _ => NodeType::Sibling,
                };
                let ghost rest = stack_entries(self.stack@);
                let ghost below = self.stack@;
                if let Some(node) = sibling.to_node(sibling_kind) {
                    self.stack.push(node);
                    proof {
                        lemma_stack_push(below, node);
                    }
                }
                let ghost mid = self.stack@;
                if let Some(node) = child.to_node(NodeType::Child) {
                    self.stack.push(node);
                    proof {
                        lemma_stack_push(mid, node);
                    }
                }
                proof {
                    assert(Node::Empty.entries(NodeType::Child) =~= Seq::<(Seq<char>, NodePosition)>::empty());
                    assert(Node::Empty.entries(sibling_kind) =~= Seq::<(Seq<char>, NodePosition)>::empty());
                    assert(stack_entries(self.stack@) =~= child.entries(NodeType::Child) + sibling.entries(sibling_kind) + rest);
                    assert(stack_entries(before) =~= seq![(label@, pos)] + stack_entries(self.stack@));
                }
                Some((label, pos))
            },
        }
    }
}

} // verus!
