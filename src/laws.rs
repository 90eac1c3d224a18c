//! Laws that relate the forest operations to one another.

use vstd::prelude::*;

use crate::traverse::{NodePosition, NodeType, sibling_type};
use crate::forest::{Node, append, lemma_append, lemma_labels_len, lemma_wf_mk, mk};
use crate::zipper::{ForestZipper, ReturnNode, lemma_descend, lemma_plug, lemma_plug_descend};

verus! {

/// Focusing on any index and restoring without an edit gives back the same
/// forest, and focusing again on the index that the restore reports finds the
/// same node.
pub proof fn law_focus_restore(f: Node, i: nat)
    requires
        f.wf(),
        i < f.count(),
    ensures
        f.zip(i).restored() == f,
        f.zip(i).prev.offset() == i,
        f.zip(i).restored().zip(f.zip(i).prev.offset()) == f.zip(i),
{
    lemma_descend(f, i, ReturnNode::Empty);
    let z = f.zip(i);
    lemma_plug_descend(z.prev, z.focus, 0);
}

/// After a label is set at an index, that index holds the new label and every
/// other index keeps its old one.
pub proof fn law_set_label_find(f: Node, i: nat, t: String)
    requires
        f.wf(),
        i < f.count(),
    ensures
        f.with_label(i, t).wf(),
        f.with_label(i, t).count() == f.count(),
        f.with_label(i, t).labels()[i as int] == t@,
        forall|j: int| 0 <= j < f.count() && j != i ==> #[trigger] f.with_label(i, t).labels()[j] == f.labels()[j],
{
    lemma_descend(f, i, ReturnNode::Empty);
    let z = f.zip(i);
    let g = z.focus.relabel(t);
    lemma_plug(z.prev, z.focus);
    lemma_plug(z.prev, g);
    lemma_labels_len(z.focus);
    lemma_labels_len(f);
    assert(g.labels() =~= z.focus.labels().update(0, t@));
    assert(f.with_label(i, t).labels() =~= f.labels().update(i as int, t@));
}

/// Moving a subtree forward past its next sibling and then backward from the
/// index it reached restores the forest and the index.
pub proof fn law_swap_involution(f: Node, i: nat)
    requires
        f.wf(),
        i < f.count(),
        f.has_next_sibling(i),
    ensures
        f.swap_next(i).0.swap_prev(f.swap_next(i).1) == (f, i),
{
    lemma_descend(f, i, ReturnNode::Empty);
    let z = f.zip(i);
    if let Node::Node { label, child, sibling, .. } = z.focus {
        if let Node::Node { label: label2, child: child2, sibling: sibling2, .. } = *sibling {
            lemma_wf_mk(z.focus);
            lemma_wf_mk(*sibling);
            let moved = mk(label, *child, *sibling2);
            let up = ReturnNode::Sibling { label: label2, prev: Box::new(z.prev), child: *child2 };
            lemma_plug_descend(up, moved, 0);
            assert(f.swap_next(i).0 == up.plug(moved));
            assert(f.swap_next(i).0.zip(f.swap_next(i).1) == (ForestZipper { focus: moved, prev: up }));
        }
    }
}

/// Deleting a node leaves, at its former index, the pre-order of its children
/// followed by the pre-order of its later siblings; the labels before that
/// index are unchanged.
pub proof fn law_delete_orphans(f: Node, i: nat)
    requires
        f.wf(),
        i < f.count(),
    ensures
        f.zip(i).focus matches Node::Node { child, sibling, .. } && {
            let n = child.count() + sibling.count();
            &&& f.deleted_at(i).labels().subrange(i as int, (i + n) as int) == child.labels() + sibling.labels()
            &&& f.deleted_at(i).labels().subrange(0, i as int) == f.labels().subrange(0, i as int)
        },
{
    lemma_descend(f, i, ReturnNode::Empty);
    let z = f.zip(i);
    lemma_plug(z.prev, z.focus);
    if let Node::Node { child, sibling, .. } = z.focus {
        lemma_append(*child, *sibling);
        lemma_plug(z.prev, append(*child, *sibling));
        lemma_labels_len(*child);
        lemma_labels_len(*sibling);
        let n = child.count() + sibling.count();
        assert(f.deleted_at(i).labels().subrange(i as int, (i + n) as int) =~= child.labels() + sibling.labels());
        assert(f.deleted_at(i).labels().subrange(0, i as int) =~= f.labels().subrange(0, i as int));
    }
}

/// The traversal yields the labels in pre-order: its `j`-th item carries the
/// label found at index `j`, whatever role the first node has.
pub proof fn law_traversal_order(f: Node, t: NodeType)
    ensures
        f.entries(t).len() == f.count(),
        forall|j: int| 0 <= j < f.count() ==> #[trigger] f.entries(t)[j].0 == f.labels()[j],
    decreases f,
{
    lemma_labels_len(f);
    match f {
        Node::Empty => {},
        Node::Node { label, child, sibling, .. } => {
            let t2 = sibling_type(t);
            law_traversal_order(*child, NodeType::Child);
            law_traversal_order(*sibling, t2);
            lemma_labels_len(*child);
            lemma_labels_len(*sibling);
            let head = seq![(label@, NodePosition { node_type: t, is_last: *sibling is Empty })];
            assert(f.entries(t) == head + child.entries(NodeType::Child) + sibling.entries(t2));
            assert(f.labels() == seq![label@] + child.labels() + sibling.labels());
            assert forall|j: int| 0 <= j < f.count() implies #[trigger] f.entries(t)[j].0 == f.labels()[j] by {
                if j == 0 {
                } else if j < 1 + child.count() {
                    assert(f.entries(t)[j] == child.entries(NodeType::Child)[j - 1]);
                    assert(f.labels()[j] == child.labels()[j - 1]);
                } else {
                    assert(f.entries(t)[j] == sibling.entries(t2)[j - 1 - child.count()]);
                    assert(f.labels()[j] == sibling.labels()[j - 1 - child.count()]);
                }
            }
        },
    }
}

} // verus!
