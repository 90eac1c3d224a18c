use vstd::prelude::*;

use crate::zipper::{
    ForestZipper, ReturnNode, climb, descend, lemma_climb, lemma_descend, lemma_plug, lemma_to_end,
    to_end,
};

verus! {

/// A node in a left-child right-sibling binary tree, containing a string.
///
/// The `size` field stores the size of the node's binary subtree.
/// The binary tree represents a forest of multi-way trees, where each node can
/// have any number of children and siblings (the roots are siblings).
#[derive(PartialEq, Eq, Debug)]
pub enum Node {
    Empty,
    Node { label: String, child: Box<Node>, sibling: Box<Node>, size: usize },
}

/// The node built from `label`, `child` and `sibling`, with its size computed.
pub open spec fn mk(label: String, child: Node, sibling: Node) -> Node {
    Node::Node {
        label,
        child: Box::new(child),
        sibling: Box::new(sibling),
        size: (1 + child.count() + sibling.count()) as usize,
    }
}

impl Node {
    /// Number of nodes reachable from this one (itself, its children, its siblings).
    pub open spec fn count(self) -> nat
        decreases self,
    {
        match self {
            Node::Empty => 0,
            Node::Node { child, sibling, .. } => 1 + child.count() + sibling.count(),
        }
    }

    /// Every stored size equals the number of nodes it covers.
    pub open spec fn wf(self) -> bool
        decreases self,
    {
        match self {
            Node::Empty => true,
            Node::Node { child, sibling, size, .. } => {
                &&& size as nat == 1 + child.count() + sibling.count()
                &&& child.wf()
                &&& sibling.wf()
            },
        }
    }

    /// The labels of the forest in pre-order.
    pub open spec fn labels(self) -> Seq<Seq<char>>
        decreases self,
    {
        match self {
            Node::Empty => Seq::empty(),
            Node::Node { label, child, sibling, .. } => seq![label@] + child.labels() + sibling.labels(),
        }
    }

    /// The zipper focused on pre-order index `i`.
    pub open spec fn zip(self, i: nat) -> ForestZipper {
        descend(self, i, ReturnNode::Empty)
    }

    /// The forest with the label of the node at `i` replaced by `label`.
    pub open spec fn with_label(self, i: nat, label: String) -> Node {
        self.zip(i).prev.plug(self.zip(i).focus.relabel(label))
    }

    /// This node with its label replaced, the rest kept.
    pub open spec fn relabel(self, label: String) -> Node {
        match self {
            Node::Empty => Node::Empty,
            Node::Node { child, sibling, size, .. } => Node::Node { label, child, sibling, size },
        }
    }

    /// The forest with the subtree at `i` swapped with its next sibling, and
    /// that subtree's new index; the forest and `i` when there is no next sibling.
    pub open spec fn swap_next(self, i: nat) -> (Node, nat) {
        let z = self.zip(i);
        match z.focus {
            Node::Node { label, child, sibling, .. } => match *sibling {
                Node::Node { label: label2, child: child2, sibling: sibling2, .. } =>
                    (z.prev.plug(mk(label2, *child2, mk(label, *child, *sibling2))), i + 1 + child2.count()),
                Node::Empty => (self, i),
            },
            Node::Empty => (self, i),
        }
    }

    /// The forest with the subtree at `i` swapped with its previous sibling,
    /// and that subtree's new index; the forest and `i` when there is no
    /// previous sibling.
    pub open spec fn swap_prev(self, i: nat) -> (Node, nat) {
        let z = self.zip(i);
        match z.prev {
            ReturnNode::Sibling { label, prev, child } => match z.focus {
                Node::Node { label: label2, child: child2, sibling: sibling2, .. } =>
                    (prev.plug(mk(label2, *child2, mk(label, child, *sibling2))), prev.offset()),
                Node::Empty => (self, i),
            },
            _ => (self, i),
        }
    }

    /// Whether the node at `i` follows a sibling on its own level.
    pub open spec fn has_prev_sibling(self, i: nat) -> bool {
        self.zip(i).prev is Sibling
    }

    /// Whether the node at `i` is followed by a sibling on its own level.
    pub open spec fn has_next_sibling(self, i: nat) -> bool {
        self.zip(i).focus matches Node::Node { sibling, .. } && *sibling is Node
    }

    /// The forest with the tree at `i` moved to follow its parent (its later
    /// siblings stay with the parent), or to the front of the forest when it
    /// is a root; and its new index.
    pub open spec fn promoted_at(self, i: nat) -> (Node, nat) {
        let z = self.zip(i);
        match z.focus {
            Node::Node { label, child, sibling, .. } => {
                let (q, g) = climb(z.prev, *sibling);
                match q {
                    ReturnNode::Parent { label: label2, prev, sibling: sibling2 } =>
                        (prev.plug(mk(label2, g, mk(label, *child, sibling2))), prev.offset() + 1 + g.count()),
                    _ => (mk(label, *child, g), 0),
                }
            },
            Node::Empty => (self, i),
        }
    }

    /// The forest with the tree at `i` moved to be the last child of its
    /// previous sibling; the forest unchanged when there is none.
    pub open spec fn demoted_at(self, i: nat) -> Node {
        let z = self.zip(i);
        match z.focus {
            Node::Node { label, child, sibling, .. } => match z.prev {
                ReturnNode::Sibling { label: label2, prev, child: child2 } =>
                    prev.plug(mk(label2, append(child2, mk(label, *child, Node::Empty)), *sibling)),
                _ => self,
            },
            Node::Empty => self,
        }
    }

    /// The forest with the node at `i` removed: its children take its place,
    /// followed by its later siblings.
    pub open spec fn deleted_at(self, i: nat) -> Node {
        let z = self.zip(i);
        match z.focus {
            Node::Node { child, sibling, .. } => z.prev.plug(append(*child, *sibling)),
            Node::Empty => self,
        }
    }

    /// A node with `label`, first child `child` and next sibling `sibling`.
    pub fn new(label: String, child: Self, sibling: Self) -> (r: Self)
        requires
            child.wf(),
            sibling.wf(),
            1 + child.count() + sibling.count() <= usize::MAX,
        ensures
            r == mk(label, child, sibling),
            r.wf(),
    {
        let size = 1 + child.size() + sibling.size();
        Self::Node { label, child: Box::new(child), sibling: Box::new(sibling), size }
    }

    /// Whether this node is non-empty.
    pub fn is_filled(&self) -> (r: bool)
        ensures
            r == (*self is Node),
    {
        match self {
            Self::Empty => false,
            Self::Node { .. } => true,
        }
    }

    /// Return a zipper focused on the node of pre-order `index` in the forest.
    /// If the index is out of range, the focus is an empty node.
    pub fn focus_node(self, index: usize) -> (r: ForestZipper)
        requires
            self.wf(),
        ensures
            r == self.zip(index as nat),
            r.wf(),
            r.restored() == self,
            r.focus.count() + r.prev.weight() == self.count(),
            index < self.count() ==> r.focus is Node && r.prev.offset() == index,
    {
        proof {
            lemma_descend(self, index as nat, ReturnNode::Empty);
        }
        let ghost whole = self;
        let mut i: usize = index;
        let mut focus = self;
        let mut prev = ReturnNode::Empty;
        while i > 0 && focus.is_filled()
            invariant
                descend(focus, i as nat, prev) == whole.zip(index as nat),
                focus.wf(),
                prev.wf(),
                focus.count() + prev.weight() == whole.count(),
                whole.count() <= usize::MAX,
            decreases i,
        {
            match focus {
                Node::Node { label, child, sibling, .. } => {
                    if i <= child.size() {
                        i -= 1;
                        focus = *child;
                        prev = ReturnNode::new_parent(label, prev, *sibling);
                    } else {
                        i -= 1 + child.size();
                        focus = *sibling;
                        prev = ReturnNode::new_sibling(label, prev, *child);
                    }
                },
                Node::Empty => {
                    focus = Node::Empty;
                },
            }
        }
        ForestZipper { focus, prev }
    }

    /// Return the label at pre-order `index`.
    pub fn find_label(&self, index: usize) -> (r: String)
        requires
            self.wf(),
            index < self.count(),
        ensures
            r@ == self.labels()[index as int],
    {
        proof {
            lemma_labels_len(*self);
        }
        let mut i: usize = index;
        let mut node: &Node = self;
        while i > 0
            invariant
                node.wf(),
                i < node.count(),
                node.labels()[i as int] == self.labels()[index as int],
            decreases i,
        {
            match node {
                Self::Node { label, child, sibling, .. } => {
                    proof {
                        lemma_labels_len(**child);
                        lemma_labels_len(**sibling);
                    }
                    if i <= child.size() {
                        i -= 1;
                        node = &**child;
                    } else {
                        i -= 1 + child.size();
                        node = &**sibling;
                    }
                },
                Self::Empty => {},
            }
        }
        match node {
            Self::Node { label, .. } => label.clone(),
            Self::Empty => String::new(),
        }
    }

    /// Assign the `label` to the node at `index`.
    pub fn set_label(self, index: usize, label: String) -> (r: Self)
        requires
            self.wf(),
            index < self.count(),
        ensures
            r == self.with_label(index as nat, label),
            r.wf(),
            r.count() == self.count(),
            r.labels() == self.labels().update(index as int, label@),
    {
        let ghost whole = self;
        let ForestZipper { focus, prev } = self.focus_node(index);
        let ghost old_focus = focus;
        let focus = match focus {
            Self::Node { child, sibling, size, .. } => Self::Node { label, child, sibling, size },
            Self::Empty => Self::Empty,
        };
        proof {
            lemma_plug(prev, old_focus);
            lemma_plug(prev, focus);
            assert(focus.labels() == old_focus.labels().update(0, label@));
            assert(whole.labels() == prev.before() + old_focus.labels() + prev.after());
            assert(focus.labels() =~= old_focus.labels().update(0, label@));
            assert(prev.plug(focus).labels() =~= whole.labels().update(index as int, label@));
        }
        ForestZipper { focus, prev }.restore()
    }

    /// Insert a Node with the `label` at the start of the forest.
    pub fn prepend(self, label: String) -> (r: Self)
        requires
            self.wf(),
            self.count() < usize::MAX,
        ensures
            r == mk(label, Node::Empty, self),
            r.wf(),
            r.labels() == seq![label@] + self.labels(),
    {
        proof {
            assert(Node::Empty.labels() =~= Seq::<Seq<char>>::empty());
            assert(mk(label, Node::Empty, self).labels() =~= seq![label@] + self.labels());
        }
        Self::new(label, Self::Empty, self)
    }

    /// Swap the subtree at `index` with its next sibling.
    pub fn move_forward(self, index: usize) -> (r: (Self, usize))
        requires
            self.wf(),
            index < self.count(),
        ensures
            (r.0, r.1 as nat) == self.swap_next(index as nat),
            r.0.wf(),
            r.0.count() == self.count(),
            r.1 < r.0.count(),
    {
        self.focus_node(index).move_forward().restore_with_index()
    }

    /// Swap the subtree at `index` with its previous sibling.
    pub fn move_backward(self, index: usize) -> (r: (Self, usize))
        requires
            self.wf(),
            index < self.count(),
        ensures
            (r.0, r.1 as nat) == self.swap_prev(index as nat),
            r.0.wf(),
            r.0.count() == self.count(),
            r.1 < r.0.count(),
    {
        self.focus_node(index).move_backward().restore_with_index()
    }

    /// Move subtree at `index` to be its parent's next sibling.
    ///
    /// If it has no parent, move it to be the first tree in the forest.
    pub fn promote(self, index: usize) -> (r: (Self, usize))
        requires
            self.wf(),
            index < self.count(),
        ensures
            (r.0, r.1 as nat) == self.promoted_at(index as nat),
            r.0.wf(),
            r.0.count() == self.count(),
            r.1 < r.0.count(),
    {
        let z = self.focus_node(index);
        let ghost z0 = z;
        proof {
            if let Node::Node { sibling, .. } = z0.focus {
                lemma_climb(z0.prev, *sibling);
            }
        }
        z.promote().restore_with_index()
    }

    /// Move subtree at `index` to be its previous sibling's last child.
    pub fn demote(self, index: usize) -> (r: (Self, usize))
        requires
            self.wf(),
            index < self.count(),
        ensures
            r.0 == self.demoted_at(index as nat),
            r.1 == index,
            r.0.wf(),
            r.0.count() == self.count(),
            r.0.labels() == self.labels(),
            !self.has_prev_sibling(index as nat) ==> r.0 == self,
    {
        proof {
            lemma_demoted_at(self, index as nat);
        }
        self.focus_node(index).demote().restore_with_index()
    }

    /// Delete the node of pre-order `index` from the forest.
    pub fn delete(self, index: usize) -> (r: Self)
        requires
            self.wf(),
            index < self.count(),
        ensures
            r == self.deleted_at(index as nat),
            r.wf(),
            r.count() == self.count() - 1,
            r.labels() == self.labels().remove(index as int),
    {
        let ForestZipper { focus, prev } = self.focus_node(index);
        let ghost old_focus = focus;
        proof {
            lemma_plug(prev, focus);
        }
        let new_focus = match focus {
            Self::Node { child, sibling, .. } => concat(*child, *sibling),
            Self::Empty => Self::Empty,
        };
        proof {
            lemma_plug(prev, new_focus);
            assert(new_focus.labels() =~= old_focus.labels().remove(0));
            assert(prev.plug(new_focus).labels() =~= self.labels().remove(index as int));
        }
        ForestZipper { focus: new_focus, prev }.restore()
    }

    /// Return the number of nodes in the forest.
    pub fn size(&self) -> (r: usize)
        requires
            self.wf(),
        ensures
            r == self.count(),
    {
        match self {
            Self::Empty => 0,
            Self::Node { size, .. } => *size,
        }
    }
}

/// The pre-order has one label per node.
pub proof fn lemma_labels_len(n: Node)
    ensures
        n.labels().len() == n.count(),
    decreases n,
{
    match n {
        Node::Empty => {},
        Node::Node { child, sibling, .. } => {
            lemma_labels_len(*child);
            lemma_labels_len(*sibling);
        },
    }
}

/// A well-formed node is the one that `mk` builds from its parts.
pub proof fn lemma_wf_mk(n: Node)
    requires
        n.wf(),
    ensures
        n matches Node::Node { label, child, sibling, .. } ==> n == mk(label, *child, *sibling),
{
}

/// A single tree cut out of a forest: a root label and the root's children.
pub enum Tree {
    Root { label: String, child: Node },
    Empty,
}

/// The forest `left` followed by the forest `right`.
pub open spec fn append(left: Node, right: Node) -> Node
    decreases left,
{
    match left {
        Node::Empty => right,
        Node::Node { label, child, sibling, .. } => mk(label, *child, append(*sibling, right)),
    }
}

pub proof fn lemma_append(left: Node, right: Node)
    requires
        left.wf(),
        right.wf(),
        left.count() + right.count() <= usize::MAX,
    ensures
        append(left, right).wf(),
        append(left, right).count() == left.count() + right.count(),
        append(left, right).labels() == left.labels() + right.labels(),
        right is Empty ==> append(left, right) == left,
    decreases left,
{
    match left {
        Node::Empty => {
            assert(append(left, right).labels() =~= left.labels() + right.labels());
        },
        Node::Node { label, child, sibling, .. } => {
            lemma_append(*sibling, right);
            assert(append(left, right).labels() =~= left.labels() + right.labels());
        },
    }
}

/// Moving the tree of `label` and `child` from after `label2`'s subtree to the
/// end of `label2`'s children keeps the pre-order.
proof fn lemma_demote_step(prev: ReturnNode, label2: String, child2: Node, label: String, child: Node, sibling: Node)
    requires
        prev.wf(),
        child2.wf(),
        child.wf(),
        sibling.wf(),
        prev.weight() + 2 + child2.count() + child.count() + sibling.count() <= usize::MAX,
    ensures
        to_end(child2, ReturnNode::Parent { label: label2, prev: Box::new(prev), sibling }).plug(mk(label, child, Node::Empty))
            == prev.plug(mk(label2, append(child2, mk(label, child, Node::Empty)), sibling)),
        to_end(child2, ReturnNode::Parent { label: label2, prev: Box::new(prev), sibling }).offset()
            == (ReturnNode::Sibling { label: label2, prev: Box::new(prev), child: child2 }).offset(),
        prev.plug(mk(label2, append(child2, mk(label, child, Node::Empty)), sibling)).labels()
            == prev.plug(mk(label2, child2, mk(label, child, sibling))).labels(),
{
    let moved = mk(label, child, Node::Empty);
    let up = ReturnNode::Parent { label: label2, prev: Box::new(prev), sibling };
    assert(Node::Empty.wf() && Node::Empty.count() == 0);
    assert(moved.wf());
    lemma_to_end(child2, up, moved);
    lemma_append(child2, moved);
    lemma_plug(prev, mk(label2, append(child2, moved), sibling));
    let inner = mk(label, child, sibling);
    assert(inner.wf());
    assert(mk(label2, child2, inner).wf());
    lemma_plug(prev, mk(label2, child2, inner));
    assert(Node::Empty.labels() =~= Seq::<Seq<char>>::empty());
    assert(moved.labels() =~= seq![label@] + child.labels());
    assert(inner.labels() =~= seq![label@] + child.labels() + sibling.labels());
    assert(mk(label2, child2, inner).labels() =~= seq![label2@] + child2.labels() + inner.labels());
    assert(mk(label2, append(child2, moved), sibling).labels() =~= seq![label2@] + append(child2, moved).labels() + sibling.labels());
    assert(mk(label2, append(child2, moved), sibling).labels() =~= mk(label2, child2, mk(label, child, sibling)).labels());
}

/// Demoting through the zipper gives the forest that `demoted_at` describes,
/// keeps the index and the pre-order, and changes nothing where the node has
/// no previous sibling.
pub proof fn lemma_demoted_at(f: Node, i: nat)
    requires
        f.wf(),
        i < f.count(),
    ensures
        f.zip(i).demoted().restored() == f.demoted_at(i),
        f.zip(i).demoted().prev.offset() == i,
        f.demoted_at(i).labels() == f.labels(),
        !f.has_prev_sibling(i) ==> f.demoted_at(i) == f,
{
    lemma_descend(f, i, ReturnNode::Empty);
    let z0 = f.zip(i);
    lemma_wf_mk(z0.focus);
    match (z0.focus, z0.prev) {
        (Node::Node { label, child, sibling, .. }, ReturnNode::Sibling { label: label2, prev, child: child2 }) => {
            lemma_demote_step(*prev, label2, child2, label, *child, *sibling);
        },
        _ => {},
    }
}

/// Concatenate two forests, making their roots siblings.
pub fn concat(left_root: Node, right_root: Node) -> (r: Node)
    requires
        left_root.wf(),
        right_root.wf(),
        left_root.count() + right_root.count() <= usize::MAX,
    ensures
        r == append(left_root, right_root),
        r.wf(),
        r.count() == left_root.count() + right_root.count(),
        r.labels() == left_root.labels() + right_root.labels(),
{
    proof {
        lemma_append(left_root, right_root);
    }
    if !right_root.is_filled() {
        return left_root;
    }
    let ghost left = left_root;
    let mut focus = left_root;
    let mut prev = ReturnNode::Empty;
    while focus.is_filled()
        invariant
            to_end(focus, prev) == to_end(left, ReturnNode::Empty),
            prev.plug(append(focus, right_root)) == append(left, right_root),
            focus.wf(),
            prev.wf(),
            right_root.wf(),
            focus.count() + prev.weight() == left.count(),
            left.count() + right_root.count() <= usize::MAX,
        decreases focus.count(),
    {
        match focus {
            Node::Node { label, child, sibling, .. } => {
                focus = *sibling;
                prev = ReturnNode::new_sibling(label, prev, *child);
            },
            Node::Empty => {
                focus = Node::Empty;
            },
        }
    }
    proof {
        lemma_to_end(left, ReturnNode::Empty, right_root);
    }
    ForestZipper { focus: right_root, prev }.restore()
}

impl Clone for Node {
    fn clone(&self) -> (r: Self)
        ensures
            r == *self,
        decreases self,
    {
        match self {
            Node::Empty => Node::Empty,
            Node::Node { label, child, sibling, size } => Node::Node {
                label: label.clone(),
                child: Box::new((**child).clone()),
                sibling: Box::new((**sibling).clone()),
                size: *size,
            },
        }
    }
}

} // verus!
