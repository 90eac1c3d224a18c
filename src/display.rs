//! Lines that draw the forest as an indented tree, one line per node.

use vstd::prelude::*;
use vstd::string::StringExecFns;

use crate::forest::Node;
use crate::traverse::{NodePosition, NodeType, PreOrderIter};

verus! {

/// Represents a text block used for tree drawing.
#[derive(PartialEq, Eq, Structural, Debug, Clone, Copy)]
pub enum IndentBlock {
    Spacer,
    VertBar,
}

/// The text that a block of the indentation prints.
pub open spec fn block_text(b: IndentBlock) -> Seq<char> {
    match b {
        IndentBlock::Spacer => seq![' ', ' ', ' '],
        IndentBlock::VertBar => seq!['│', ' ', ' '],
    }
}

/// The text of a whole indentation, outermost block first.
pub open spec fn render(prefix: Seq<IndentBlock>) -> Seq<char>
    decreases prefix.len(),
{
    if prefix.len() == 0 {
        Seq::empty()
    } else {
        render(prefix.drop_last()) + block_text(prefix.last())
    }
}

/// The indentation left after closing the levels that a next sibling ends:
/// trailing spacers are dropped, and the vertical bar before them.
pub open spec fn unwind(prefix: Seq<IndentBlock>) -> Seq<IndentBlock>
    decreases prefix.len(),
{
    if prefix.len() == 0 {
        prefix
    } else if prefix.last() == IndentBlock::Spacer {
        unwind(prefix.drop_last())
    } else {
        prefix.drop_last()
    }
}

/// The line drawn for a node with label `label` at position `pos`, given the
/// indentation in force, together with the indentation that follows it.
pub open spec fn line_of(prefix: Seq<IndentBlock>, label: Seq<char>, pos: NodePosition) -> (Seq<char>, Seq<IndentBlock>) {
    if pos.node_type == NodeType::Root {
        (label, Seq::empty())
    } else {
        let p = if pos.node_type == NodeType::Sibling { unwind(prefix) } else { prefix };
        if pos.is_last {
            (render(p) + seq!['└', '─', '─'] + label, p.push(IndentBlock::Spacer))
        } else {
            (render(p) + seq!['├', '─', '─'] + label, p.push(IndentBlock::VertBar))
        }
    }
}

/// Iterator type returning the strings used to display the forest.
pub struct ForestIter<'a> {
    prefix: Vec<IndentBlock>,
    label_iter: PreOrderIter<'a>,
}

impl<'a> ForestIter<'a> {
    /// The indentation in force.
    pub closed spec fn prefix(&self) -> Seq<IndentBlock> {
        self.prefix@
    }

    /// The labels and positions of the nodes whose lines are still due.
    pub closed spec fn remaining(&self) -> Seq<(Seq<char>, NodePosition)> {
        self.label_iter.remaining()
    }

    pub fn new(forest: &'a Node) -> (r: Self)
        ensures
            r.prefix() == Seq::<IndentBlock>::empty(),
            r.remaining() == forest.entries(NodeType::Root),
    {
        ForestIter { prefix: Vec::new(), label_iter: forest.iter() }
    }

    /// Return the line of the next node in pre-order, if any is left.
    pub fn next(&mut self) -> (r: Option<String>)
        ensures
            old(self).remaining().len() == 0 ==> r is None && final(self).remaining() == old(self).remaining(),
            old(self).remaining().len() > 0 ==> (r matches Some(line) && (line@, final(self).prefix()) == line_of(
                old(self).prefix(),
                old(self).remaining()[0].0,
                old(self).remaining()[0].1,
            ) && final(self).remaining() == old(self).remaining().drop_first()),
    {
        let (label, pos) = match self.label_iter.next() {
            Some(item) => item,
            None => {
                return None;
            },
        };
        let ghost due = old(self).remaining();
        let ghost start = old(self).prefix();
        assert((label@, pos) == due[0] && self.remaining() == due.drop_first() && self.prefix@ == start);
        let NodePosition { node_type, is_last } = pos;
        if let NodeType::Root = node_type {
            self.prefix.clear();
            return Some(label.to_owned());
        }
        let mut line = String::new();
        if let NodeType::Sibling = node_type {
            let ghost target = unwind(self.prefix@);
            let mut popping = true;
            while popping
                invariant
                    popping ==> unwind(self.prefix@) == target,
                    !popping ==> self.prefix@ == target,
                    target == unwind(start),
                    (label@, pos) == due[0],
                    self.remaining() == due.drop_first(),
                    line@ == Seq::<char>::empty(),
                decreases self.prefix@.len() + if popping { 1int } else { 0int },
            {
                match self.prefix.pop() {
                    Some(IndentBlock::Spacer) => {},
                    _ => {
                        popping = false;
                    },
                }
            }
        }
        proof {
            assert(self.prefix@ == line_of(start, label@, pos).1.drop_last());
        }
        let mut k: usize = 0;
        while k < self.prefix.len()
            invariant
                k <= self.prefix@.len(),
                line@ == render(self.prefix@.subrange(0, k as int)),
                self.prefix@ == line_of(start, label@, pos).1.drop_last(),
                (label@, pos) == due[0],
                pos.node_type != NodeType::Root,
                self.remaining() == due.drop_first(),
            decreases self.prefix@.len() - k,
        {
            proof {
                assert(self.prefix@.subrange(0, k + 1).drop_last() =~= self.prefix@.subrange(0, k as int));
                reveal_strlit("   ");
                reveal_strlit("│  ");
            }
            line.append(match self.prefix[k] {
                IndentBlock::Spacer => "   ",
                IndentBlock::VertBar => "│  ",
            });
            k += 1;
        }
        proof {
            assert(self.prefix@.subrange(0, k as int) =~= self.prefix@);
            reveal_strlit("└──");
            reveal_strlit("├──");
        }
        if is_last {
            line.append("└──");
            self.prefix.push(IndentBlock::Spacer);
        } else {
            line.append("├──");
            self.prefix.push(IndentBlock::VertBar);
        }
        line.append(label);
        Some(line)
    }
}

} // verus!
