//! The zipper: a focused subtree together with the path that rebuilds the
//! whole forest around it, and the local edits made at the focus.

use vstd::prelude::*;

use crate::forest::{Node, Tree, append, lemma_labels_len, lemma_wf_mk, mk};

verus! {

/// One step of the path from a focused node back to the top of the forest.
#[derive(PartialEq, Eq, Debug)]
pub enum ReturnNode {
    /// The focus is the first child of a node with this label and sibling.
    Parent { label: String, prev: Box<ReturnNode>, sibling: Node },
    /// The focus is the next sibling of a node with this label and child.
    Sibling { label: String, prev: Box<ReturnNode>, child: Node },
    Empty,
}

/// Zipper representation of a forest focused on a node.
#[derive(PartialEq, Eq, Debug)]
pub struct ForestZipper {
    pub focus: Node,
    pub prev: ReturnNode,
}

impl ReturnNode {
    /// The forest rebuilt by climbing this path around `focus`.
    pub open spec fn plug(self, focus: Node) -> Node
        decreases self,
    {
        match self {
            ReturnNode::Parent { label, prev, sibling } => prev.plug(mk(label, focus, sibling)),
            ReturnNode::Sibling { label, prev, child } => prev.plug(mk(label, child, focus)),
            ReturnNode::Empty => focus,
        }
    }

    /// The pre-order index of the focus in the rebuilt forest.
    pub open spec fn offset(self) -> nat
        decreases self,
    {
        match self {
            ReturnNode::Parent { prev, .. } => 1 + prev.offset(),
            ReturnNode::Sibling { prev, child, .. } => 1 + child.count() + prev.offset(),
            ReturnNode::Empty => 0,
        }
    }

    /// The number of nodes that the path adds around the focus.
    pub open spec fn weight(self) -> nat
        decreases self,
    {
        match self {
            ReturnNode::Parent { prev, sibling, .. } => 1 + sibling.count() + prev.weight(),
            ReturnNode::Sibling { prev, child, .. } => 1 + child.count() + prev.weight(),
            ReturnNode::Empty => 0,
        }
    }

    /// Every forest held by the path is well formed.
    pub open spec fn wf(self) -> bool
        decreases self,
    {
        match self {
            ReturnNode::Parent { prev, sibling, .. } => sibling.wf() && prev.wf(),
            ReturnNode::Sibling { prev, child, .. } => child.wf() && prev.wf(),
            ReturnNode::Empty => true,
        }
    }

    /// The labels that come before the focus in the rebuilt forest's pre-order.
    pub open spec fn before(self) -> Seq<Seq<char>>
        decreases self,
    {
        match self {
            ReturnNode::Parent { label, prev, .. } => prev.before() + seq![label@],
            ReturnNode::Sibling { label, prev, child } => prev.before() + seq![label@] + child.labels(),
            ReturnNode::Empty => Seq::empty(),
        }
    }

    /// The labels that come after the focus in the rebuilt forest's pre-order.
    pub open spec fn after(self) -> Seq<Seq<char>>
        decreases self,
    {
        match self {
            ReturnNode::Parent { prev, sibling, .. } => sibling.labels() + prev.after(),
            ReturnNode::Sibling { prev, .. } => prev.after(),
            ReturnNode::Empty => Seq::empty(),
        }
    }

    pub(crate) fn new_parent(label: String, prev: Self, sibling: Node) -> (r: Self)
        ensures
            r == (ReturnNode::Parent { label, prev: Box::new(prev), sibling }),
    {
        Self::Parent { label, prev: Box::new(prev), sibling }
    }

    pub(crate) fn new_sibling(label: String, prev: Self, child: Node) -> (r: Self)
        ensures
            r == (ReturnNode::Sibling { label, prev: Box::new(prev), child }),
    {
        Self::Sibling { label, prev: Box::new(prev), child }
    }
}

/// The zipper reached from `f`, with path `p` above it, by descending to
/// pre-order index `i` within `f`.
pub open spec fn descend(f: Node, i: nat, p: ReturnNode) -> ForestZipper
    decreases f,
{
    if i == 0 {
        ForestZipper { focus: f, prev: p }
    } else {
        match f {
            Node::Empty => ForestZipper { focus: f, prev: p },
            Node::Node { label, child, sibling, .. } => {
                if i <= child.count() {
                    descend(*child, (i - 1) as nat, ReturnNode::Parent { label, prev: Box::new(p), sibling: *sibling })
                } else {
                    descend(*sibling, (i - 1 - child.count()) as nat, ReturnNode::Sibling { label, prev: Box::new(p), child: *child })
                }
            },
        }
    }
}

impl ForestZipper {
    /// The zipper holds a well-formed forest whose size fits in a `usize`.
    pub open spec fn wf(self) -> bool {
        &&& self.focus.wf()
        &&& self.prev.wf()
        &&& self.focus.count() + self.prev.weight() <= usize::MAX
    }

    /// The forest that the zipper stands for.
    pub open spec fn restored(self) -> Node {
        self.prev.plug(self.focus)
    }

    /// The zipper with the focused subtree swapped with its next sibling.
    pub open spec fn forward(self) -> ForestZipper {
        match self.focus {
            Node::Node { label, child, sibling, .. } => match *sibling {
                Node::Node { label: label2, child: child2, sibling: sibling2, .. } => ForestZipper {
                    focus: mk(label, *child, *sibling2),
                    prev: ReturnNode::Sibling { label: label2, prev: Box::new(self.prev), child: *child2 },
                },
                Node::Empty => self,
            },
            Node::Empty => self,
        }
    }

    /// The zipper with the focused subtree swapped with its previous sibling.
    pub open spec fn backward(self) -> ForestZipper {
        match self.prev {
            ReturnNode::Sibling { label, prev, child } => match self.focus {
                Node::Node { label: label2, child: child2, sibling: sibling2, .. } => ForestZipper {
                    focus: mk(label2, *child2, mk(label, child, *sibling2)),
                    prev: *prev,
                },
                Node::Empty => self,
            },
            _ => self,
        }
    }

    /// The zipper with the focused tree moved after its parent, or to the
    /// front of the forest when it has no parent.
    pub open spec fn promoted(self) -> ForestZipper {
        match self.focus {
            Node::Node { label, child, sibling, .. } => lift(climb(self.prev, *sibling), label, *child),
            Node::Empty => self,
        }
    }

    /// The zipper with the focused tree moved to the end of its previous
    /// sibling's children, unchanged when it has no previous sibling.
    pub open spec fn demoted(self) -> ForestZipper {
        match self.focus {
            Node::Node { label, child, sibling, .. } => match self.prev {
                ReturnNode::Sibling { label: label2, prev, child: child2 } => ForestZipper {
                    focus: mk(label, *child, Node::Empty),
                    prev: to_end(child2, ReturnNode::Parent { label: label2, prev, sibling: *sibling }),
                },
                _ => self,
            },
            Node::Empty => self,
        }
    }

    /// Swap the focused node's subtree with its next sibling (if present).
    pub(crate) fn move_forward(self) -> (r: Self)
        requires
            self.wf(),
        ensures
            r == self.forward(),
            r.wf(),
            r.focus.count() + r.prev.weight() == self.focus.count() + self.prev.weight(),
    {
        let ForestZipper { focus, prev } = self;
        match focus {
            Node::Node { label, child, sibling, .. } => {
                proof {
                    assert(sibling.wf());
                }
                match *sibling {
                    Node::Node { label: label2, child: child2, sibling: sibling2, .. } => {
                        let focus = Node::new(label, *child, *sibling2);
                        let prev = ReturnNode::new_sibling(label2, prev, *child2);
                        Self { focus, prev }
                    },
                    Node::Empty => {
                        let focus = Node::new(label, *child, Node::Empty);
                        Self { focus, prev }
                    },
                }
            },
            Node::Empty => Self { focus: Node::Empty, prev },
        }
    }

    /// Swap the focused node's subtree with its previous sibling (if present).
    pub(crate) fn move_backward(self) -> (r: Self)
        requires
            self.wf(),
        ensures
            r == self.backward(),
            r.wf(),
            r.focus.count() + r.prev.weight() == self.focus.count() + self.prev.weight(),
    {
        let ForestZipper { focus, prev } = self;
        match prev {
            ReturnNode::Sibling { label, prev, child } => match focus {
                Node::Node { label: label2, child: child2, sibling: sibling2, .. } => {
                    let sibling = Node::new(label, child, *sibling2);
                    let focus = Node::new(label2, *child2, sibling);
                    Self { focus, prev: *prev }
                },
                Node::Empty => Self { focus: Node::Empty, prev: ReturnNode::new_sibling(label, *prev, child) },
            },
            other => Self { focus, prev: other },
        }
    }

    /// Extract the subtree of the focused node from the forest.
    pub(crate) fn extract_tree(self) -> (r: (Self, Tree))
        requires
            self.wf(),
        ensures
            match self.focus {
                Node::Node { label, child, sibling, .. } => {
                    &&& r.0 == (ForestZipper { focus: *sibling, prev: self.prev })
                    &&& r.1 == (Tree::Root { label, child: *child })
                },
                Node::Empty => r.0 == self && r.1 == Tree::Empty,
            },
    {
        match self.focus {
            Node::Node { label, child, sibling, .. } => {
                let zipper = Self { focus: *sibling, prev: self.prev };
                let tree = Tree::Root { label, child: *child };
                (zipper, tree)
            },
            Node::Empty => (self, Tree::Empty),
        }
    }

    /// Move the focused node's subtree to be its parent's next sibling.
    /// If it has no parent, move it to be the first tree in the forest.
    pub(crate) fn promote(self) -> (r: Self)
        requires
            self.wf(),
        ensures
            r == self.promoted(),
            r.wf(),
            r.focus.count() + r.prev.weight() == self.focus.count() + self.prev.weight(),
    {
        let ghost total = self.focus.count() + self.prev.weight();
        let (zipper, tree) = self.extract_tree();
        let (root_label, root_child) = match tree {
            Tree::Root { label, child } => (label, child),
            Tree::Empty => {
                return zipper;
            },
        };
        proof {
            lemma_climb(zipper.prev, zipper.focus);
        }
        let ForestZipper { focus: start, prev: path } = zipper;
        let mut focus = start;
        let mut prev = path;
        loop
            invariant
                self.promoted() == lift(climb(prev, focus), root_label, root_child),
                climb(prev, focus).0.wf(),
                climb(prev, focus).1.wf(),
                climb(prev, focus).1.count() + climb(prev, focus).0.weight() == focus.count() + prev.weight(),
                focus.wf(),
                prev.wf(),
                root_child.wf(),
                total == 1 + root_child.count() + focus.count() + prev.weight(),
                total == self.focus.count() + self.prev.weight(),
                total <= usize::MAX,
            decreases prev.weight(),
        {
            match prev {
                ReturnNode::Sibling { label, prev: up, child } => {
                    focus = Node::new(label, child, focus);
                    prev = *up;
                    proof {
                        lemma_climb(prev, focus);
                    }
                },
                ReturnNode::Parent { label, prev: up, sibling } => {
                    let prev = ReturnNode::new_sibling(label, *up, focus);
                    let focus = Node::new(root_label, root_child, sibling);
                    return Self { focus, prev };
                },
                ReturnNode::Empty => {
                    let focus = Node::new(root_label, root_child, focus);
                    return Self { focus, prev: ReturnNode::Empty };
                },
            }
        }
    }

    /// Move the focused node's subtree to be its previous sibling's last child.
    pub(crate) fn demote(self) -> (r: Self)
        requires
            self.wf(),
        ensures
            r == self.demoted(),
            r.wf(),
            r.focus.count() + r.prev.weight() == self.focus.count() + self.prev.weight(),
    {
        let ghost total = self.focus.count() + self.prev.weight();
        let (zipper, tree) = self.extract_tree();
        let (root_label, root_child) = match tree {
            Tree::Root { label, child } => (label, child),
            Tree::Empty => {
                return zipper;
            },
        };
        let ForestZipper { focus, prev } = zipper;
        match prev {
            ReturnNode::Sibling { label, prev: up, child } => {
                let ghost target = to_end(child, ReturnNode::Parent { label, prev: up, sibling: focus });
                let mut prev = ReturnNode::new_parent(label, *up, focus);
                let mut focus = child;
                proof {
                    lemma_to_end(focus, prev, Node::Empty);
                }
                while focus.is_filled()
                    invariant
                        to_end(focus, prev) == target,
                        focus.wf(),
                        prev.wf(),
                        root_child.wf(),
                        total == 1 + root_child.count() + focus.count() + prev.weight(),
                        total <= usize::MAX,
                    decreases focus.count(),
                {
                    match focus {
                        Node::Node { label, child, sibling, .. } => {
                            prev = ReturnNode::new_sibling(label, prev, *child);
                            focus = *sibling;
                        },
                        Node::Empty => {
                            focus = Node::Empty;
                        },
                    }
                }
                let focus = Node::new(root_label, root_child, Node::Empty);
                Self { focus, prev }
            },
            other => {
                let focus = Node::new(root_label, root_child, focus);
                Self { focus, prev: other }
            },
        }
    }

    /// Restore the zipper's corresponding forest.
    pub fn restore(self) -> (r: Node)
        requires
            self.wf(),
        ensures
            r == self.restored(),
            r.wf(),
            r.count() == self.focus.count() + self.prev.weight(),
    {
        proof {
            lemma_plug(self.prev, self.focus);
        }
        let ghost whole = self;
        let ForestZipper { focus: start, prev: path } = self;
        let mut focus = start;
        let mut prev = path;
        loop
            invariant
                whole == self,
                prev.plug(focus) == whole.restored(),
                focus.wf(),
                prev.wf(),
                focus.count() + prev.weight() == whole.focus.count() + whole.prev.weight(),
                whole.focus.count() + whole.prev.weight() <= usize::MAX,
            decreases prev.weight(),
        {
            match prev {
                ReturnNode::Parent { label, prev: up, sibling } => {
                    focus = Node::new(label, focus, sibling);
                    prev = *up;
                },
                ReturnNode::Sibling { label, prev: up, child } => {
                    focus = Node::new(label, child, focus);
                    prev = *up;
                },
                ReturnNode::Empty => {
                    return focus;
                },
            }
        }
    }

    /// Restore the forest and return the focused node's pre-order index.
    pub fn restore_with_index(self) -> (r: (Node, usize))
        requires
            self.wf(),
        ensures
            r.0 == self.restored(),
            r.0.wf(),
            r.0.count() == self.focus.count() + self.prev.weight(),
            r.1 == self.prev.offset(),
            self.focus is Node ==> r.1 < r.0.count(),
    {
        proof {
            lemma_plug(self.prev, self.focus);
        }
        let ghost whole = self;
        let ForestZipper { focus: start, prev: path } = self;
        let mut focus = start;
        let mut prev = path;
        let mut i: usize = 0;
        loop
            invariant
                whole == self,
                prev.plug(focus) == whole.restored(),
                focus.wf(),
                prev.wf(),
                focus.count() + prev.weight() == whole.focus.count() + whole.prev.weight(),
                whole.focus.count() + whole.prev.weight() <= usize::MAX,
                i + prev.offset() == whole.prev.offset(),
                whole.prev.offset() <= whole.prev.weight(),
            decreases prev.weight(),
        {
            match prev {
                ReturnNode::Parent { label, prev: up, sibling } => {
                    i += 1;
                    focus = Node::new(label, focus, sibling);
                    prev = *up;
                },
                ReturnNode::Sibling { label, prev: up, child } => {
                    i += 1 + child.size();
                    focus = Node::new(label, child, focus);
                    prev = *up;
                },
                ReturnNode::Empty => {
                    return (focus, i);
                },
            }
        }
    }
}

/// Rebuilding around a well-formed focus gives a well-formed forest, whose
/// size and pre-order are those of the path and focus together.
pub proof fn lemma_plug(p: ReturnNode, f: Node)
    requires
        p.wf(),
        f.wf(),
        f.count() + p.weight() <= usize::MAX,
    ensures
        p.plug(f).wf(),
        p.plug(f).count() == f.count() + p.weight(),
        p.plug(f).labels() == p.before() + f.labels() + p.after(),
        p.before().len() == p.offset(),
        p.offset() <= p.weight(),
    decreases p,
{
    match p {
        ReturnNode::Parent { label, prev, sibling } => {
            lemma_plug(*prev, mk(label, f, sibling));
            assert(p.plug(f).labels() =~= p.before() + f.labels() + p.after());
        },
        ReturnNode::Sibling { label, prev, child } => {
            lemma_plug(*prev, mk(label, child, f));
            lemma_labels_len(child);
            assert(p.plug(f).labels() =~= p.before() + f.labels() + p.after());
        },
        ReturnNode::Empty => {
            assert(p.plug(f).labels() =~= p.before() + f.labels() + p.after());
        },
    }
}

/// Descending keeps the forest the zipper stands for, and reaches a non-empty
/// focus at the requested index when the index is in range.
pub proof fn lemma_descend(f: Node, i: nat, p: ReturnNode)
    requires
        f.wf(),
        p.wf(),
        f.count() + p.weight() <= usize::MAX,
    ensures
        descend(f, i, p).wf(),
        descend(f, i, p).focus.count() + descend(f, i, p).prev.weight() == f.count() + p.weight(),
        descend(f, i, p).restored() == p.plug(f),
        i < f.count() ==> descend(f, i, p).focus is Node,
        i < f.count() ==> descend(f, i, p).prev.offset() == p.offset() + i,
    decreases f,
{
    if i != 0 {
        match f {
            Node::Empty => {},
            Node::Node { label, child, sibling, .. } => {
                lemma_wf_mk(f);
                if i <= child.count() {
                    lemma_descend(*child, (i - 1) as nat, ReturnNode::Parent { label, prev: Box::new(p), sibling: *sibling });
                } else {
                    lemma_descend(*sibling, (i - 1 - child.count()) as nat, ReturnNode::Sibling { label, prev: Box::new(p), child: *child });
                }
            },
        }
    }
}

/// Descending from the top of a rebuilt forest to the focus's index finds
/// the same focus and path again.
pub proof fn lemma_plug_descend(p: ReturnNode, f: Node, k: nat)
    requires
        k < f.count(),
    ensures
        descend(p.plug(f), p.offset() + k, ReturnNode::Empty) == descend(f, k, p),
    decreases p,
{
    match p {
        ReturnNode::Parent { label, prev, sibling } => {
            lemma_plug_descend(*prev, mk(label, f, sibling), 1 + k);
            assert(descend(mk(label, f, sibling), 1 + k, *prev) == descend(f, k, p));
        },
        ReturnNode::Sibling { label, prev, child } => {
            lemma_plug_descend(*prev, mk(label, child, f), 1 + child.count() + k);
            assert(descend(mk(label, child, f), 1 + child.count() + k, *prev) == descend(f, k, p));
        },
        ReturnNode::Empty => {},
    }
}

/// The path reached from `p` by walking along the sibling chain of `f` to its end.
pub open spec fn to_end(f: Node, p: ReturnNode) -> ReturnNode
    decreases f,
{
    match f {
        Node::Empty => p,
        Node::Node { label, child, sibling, .. } => to_end(*sibling, ReturnNode::Sibling { label, prev: Box::new(p), child: *child }),
    }
}

/// The zipper that puts the tree of `label` and `child` back after climbing to
/// `climbed`: after the parent reached, or at the front of the forest.
pub open spec fn lift(climbed: (ReturnNode, Node), label: String, child: Node) -> ForestZipper {
    match climbed.0 {
        ReturnNode::Parent { label: label2, prev, sibling } => ForestZipper {
            focus: mk(label, child, sibling),
            prev: ReturnNode::Sibling { label: label2, prev, child: climbed.1 },
        },
        _ => ForestZipper { focus: mk(label, child, climbed.1), prev: climbed.0 },
    }
}

/// Climb from `f` past every preceding sibling step of `p`: the remaining path
/// and the rebuilt sibling chain.
pub open spec fn climb(p: ReturnNode, f: Node) -> (ReturnNode, Node)
    decreases p,
{
    match p {
        ReturnNode::Sibling { label, prev, child } => climb(*prev, mk(label, child, f)),
        _ => (p, f),
    }
}

pub proof fn lemma_to_end(f: Node, p: ReturnNode, r: Node)
    requires
        f.wf(),
        p.wf(),
        r.wf(),
        f.count() + p.weight() + r.count() <= usize::MAX,
    ensures
        to_end(f, p).plug(r) == p.plug(append(f, r)),
        to_end(f, p).wf(),
        to_end(f, p).weight() == f.count() + p.weight(),
        to_end(f, p).offset() == f.count() + p.offset(),
    decreases f,
{
    match f {
        Node::Empty => {},
        Node::Node { label, child, sibling, .. } => {
            lemma_to_end(*sibling, ReturnNode::Sibling { label, prev: Box::new(p), child: *child }, r);
        },
    }
}

pub proof fn lemma_climb(p: ReturnNode, f: Node)
    requires
        p.wf(),
        f.wf(),
        f.count() + p.weight() <= usize::MAX,
    ensures
        climb(p, f).0.plug(climb(p, f).1) == p.plug(f),
        climb(p, f).0 !is Sibling,
        climb(p, f).0.wf(),
        climb(p, f).1.wf(),
        climb(p, f).1.count() + climb(p, f).0.weight() == f.count() + p.weight(),
    decreases p,
{
    match p {
        ReturnNode::Sibling { label, prev, child } => {
            lemma_climb(*prev, mk(label, child, f));
        },
        _ => {},
    }
}

} // verus!
