use forest_rank::forest::{Node, Tree};
use forest_rank::traverse::{NodePosition, NodeType};
use forest_rank::zipper::{ForestZipper, ReturnNode};

// Create a forest from a list of trees.
fn forest(mut trees: Vec<Tree>) -> Node {
    let mut root = Node::Empty;
    while let Some(tree) = trees.pop() {
        if let Tree::Root { label, child } = tree {
            root = Node::new(label, child, root);
        }
    }
    root
}

// Create a tree given the root `label` and list of child subtrees.
fn tree(label: &str, children: Vec<Tree>) -> Tree {
    Tree::Root {
        label: label.to_string(),
        child: forest(children),
    }
}

// Create a single-node tree.
fn leaf(label: &str) -> Tree {
    Tree::Root {
        label: label.to_string(),
        child: Node::Empty,
    }
}

// The forest 0, 1[2, 3], 4.
fn sample() -> Node {
    forest(vec![leaf("0"), tree("1", vec![leaf("2"), leaf("3")]), leaf("4")])
}

fn labels(f: &Node) -> Vec<String> {
    let mut out = Vec::new();
    let mut it = f.iter();
    while let Some((label, _)) = it.next() {
        out.push(label.to_string());
    }
    out
}

fn positions(f: &Node) -> Vec<(String, NodeType, bool)> {
    let mut out = Vec::new();
    let mut it = f.iter();
    while let Some((label, NodePosition { node_type, is_last })) = it.next() {
        out.push((label.to_string(), node_type, is_last));
    }
    out
}

#[test]
fn focus_empty_forest() {
    let result_0 = Node::Empty.focus_node(0);
    let result_1 = Node::Empty.focus_node(1);
    let empty_zipper = ForestZipper {
        focus: Node::Empty,
        prev: ReturnNode::Empty,
    };

    assert_eq!(result_0, empty_zipper);
    assert_eq!(result_1, empty_zipper);
}

#[test]
fn focus_and_restore_forest() {
    let forest_a = forest(vec![
        leaf("0"),
        tree("1", vec![
            leaf("2"),
            leaf("3"),
        ]),
        leaf("4"),
    ]);
    let focus_a1 = forest(vec![
        tree("1", vec![
            leaf("2"),
            leaf("3"),
        ]),
        leaf("4"),
    ]);
    let focus_a2 = forest(vec![
        leaf("2"),
        leaf("3"),
    ]);
    let zipper_a1 = forest_a.clone().focus_node(1);
    let zipper_a2 = forest_a.clone().focus_node(2);

    assert_eq!(zipper_a1.focus, focus_a1);
    assert_eq!(zipper_a2.focus, focus_a2);
    assert_eq!(zipper_a1.restore(), forest_a);
    assert_eq!(zipper_a2.restore(), forest_a);
}

#[test]
fn sample_pre_order() {
    let f = sample();
    assert_eq!(f.size(), 5);
    assert_eq!(labels(&f), vec!["0", "1", "2", "3", "4"]);
}

#[test]
fn traversal_positions() {
    let f = sample();
    assert_eq!(
        positions(&f),
        vec![
            ("0".to_string(), NodeType::Root, false),
            ("1".to_string(), NodeType::Root, false),
            ("2".to_string(), NodeType::Child, false),
            ("3".to_string(), NodeType::Sibling, true),
            ("4".to_string(), NodeType::Root, true),
        ]
    );
    assert!(positions(&Node::Empty).is_empty());
}

#[test]
fn focus_then_restore_with_index_every_index() {
    let f = sample();
    for i in 0..f.size() {
        let (g, j) = f.clone().focus_node(i).restore_with_index();
        assert_eq!(g, f);
        assert_eq!(j, i);
    }
}

#[test]
fn focus_past_end_is_empty() {
    let z = sample().focus_node(7);
    assert_eq!(z.focus, Node::Empty);
    assert_eq!(z.restore(), sample());
}

#[test]
fn size_counts_every_node() {
    assert_eq!(Node::Empty.size(), 0);
    let f = sample();
    assert_eq!(f.size(), 5);
    if let Node::Node { child, sibling, size, .. } = &f {
        assert_eq!(*size, 1 + child.size() + sibling.size());
        assert_eq!(sibling.size(), 4);
    } else {
        panic!("sample forest is empty");
    }
}

#[test]
fn find_label_each_index() {
    let f = sample();
    for (i, expected) in ["0", "1", "2", "3", "4"].iter().enumerate() {
        assert_eq!(f.find_label(i), *expected);
    }
}

#[test]
fn set_label_round_trip() {
    let f = sample().set_label(3, "three".to_string());
    assert_eq!(f.find_label(3), "three");
    assert_eq!(labels(&f), vec!["0", "1", "2", "three", "4"]);
    let expected = forest(vec![leaf("0"), tree("1", vec![leaf("2"), leaf("three")]), leaf("4")]);
    assert_eq!(f, expected);
}

#[test]
fn prepend_adds_first_root() {
    let f = sample().prepend("new".to_string());
    assert_eq!(f.size(), 6);
    assert_eq!(labels(&f), vec!["new", "0", "1", "2", "3", "4"]);
    let g = Node::Empty.prepend("only".to_string());
    assert_eq!(g, forest(vec![leaf("only")]));
}

#[test]
fn move_forward_swaps_with_next_sibling() {
    let (f, i) = sample().move_forward(1);
    assert_eq!(f, forest(vec![leaf("0"), leaf("4"), tree("1", vec![leaf("2"), leaf("3")])]));
    assert_eq!(i, 2);
    assert_eq!(f.find_label(i), "1");
}

#[test]
fn move_forward_without_next_sibling_is_noop() {
    let (f, i) = sample().move_forward(3);
    assert_eq!(f, sample());
    assert_eq!(i, 3);
    let (g, j) = sample().move_forward(4);
    assert_eq!(g, sample());
    assert_eq!(j, 4);
}

#[test]
fn move_backward_swaps_with_previous_sibling() {
    let (f, i) = sample().move_backward(1);
    assert_eq!(f, forest(vec![tree("1", vec![leaf("2"), leaf("3")]), leaf("0"), leaf("4")]));
    assert_eq!(i, 0);
    let (g, j) = sample().move_backward(3);
    assert_eq!(g, forest(vec![leaf("0"), tree("1", vec![leaf("3"), leaf("2")]), leaf("4")]));
    assert_eq!(j, 2);
}

#[test]
fn move_backward_without_previous_sibling_is_noop() {
    let (f, i) = sample().move_backward(2);
    assert_eq!(f, sample());
    assert_eq!(i, 2);
    let (g, j) = sample().move_backward(0);
    assert_eq!(g, sample());
    assert_eq!(j, 0);
}

#[test]
fn swap_forward_then_backward_restores() {
    for i in [0usize, 1, 2] {
        let (f, j) = sample().move_forward(i);
        let (g, k) = f.move_backward(j);
        assert_eq!(g, sample());
        assert_eq!(k, i);
    }
}

#[test]
fn promote_child_follows_parent() {
    let (f, i) = sample().promote(2);
    assert_eq!(f, forest(vec![leaf("0"), tree("1", vec![leaf("3")]), leaf("2"), leaf("4")]));
    assert_eq!(i, 3);
    assert_eq!(f.find_label(i), "2");
}

#[test]
fn promote_last_child_keeps_earlier_children() {
    let (f, i) = sample().promote(3);
    assert_eq!(f, forest(vec![leaf("0"), tree("1", vec![leaf("2")]), leaf("3"), leaf("4")]));
    assert_eq!(i, 3);
}

#[test]
fn promote_root_moves_to_front() {
    let (f, i) = sample().promote(4);
    assert_eq!(f, forest(vec![leaf("4"), leaf("0"), tree("1", vec![leaf("2"), leaf("3")])]));
    assert_eq!(i, 0);
    let (g, j) = sample().promote(0);
    assert_eq!(g, sample());
    assert_eq!(j, 0);
}

#[test]
fn demote_appends_to_previous_sibling_children() {
    let (f, i) = sample().demote(4);
    assert_eq!(f, forest(vec![leaf("0"), tree("1", vec![leaf("2"), leaf("3"), leaf("4")])]));
    assert_eq!(i, 4);
    let (g, j) = sample().demote(1);
    assert_eq!(g, forest(vec![tree("0", vec![tree("1", vec![leaf("2"), leaf("3")])]), leaf("4")]));
    assert_eq!(j, 1);
    assert_eq!(labels(&g), labels(&sample()));
}

#[test]
fn demote_first_of_level_is_noop() {
    let (f, i) = sample().demote(0);
    assert_eq!(f, sample());
    assert_eq!(i, 0);
    let (g, j) = sample().demote(2);
    assert_eq!(g, sample());
    assert_eq!(j, 2);
}

#[test]
fn delete_node_with_children() {
    let f = sample().delete(1);
    assert_eq!(f, forest(vec![leaf("0"), leaf("2"), leaf("3"), leaf("4")]));
    assert_eq!(labels(&f), vec!["0", "2", "3", "4"]);
}

#[test]
fn delete_leaf_and_last() {
    let f = sample().delete(2);
    assert_eq!(f, forest(vec![leaf("0"), tree("1", vec![leaf("3")]), leaf("4")]));
    let g = sample().delete(4);
    assert_eq!(g, forest(vec![leaf("0"), tree("1", vec![leaf("2"), leaf("3")])]));
    let h = forest(vec![leaf("x")]).delete(0);
    assert_eq!(h, Node::Empty);
}

#[test]
fn delete_puts_children_before_siblings() {
    let f = forest(vec![tree("a", vec![leaf("b"), leaf("c")]), leaf("d")]);
    let g = f.delete(0);
    assert_eq!(labels(&g), vec!["b", "c", "d"]);
    assert_eq!(g, forest(vec![leaf("b"), leaf("c"), leaf("d")]));
}

#[test]
fn concat_joins_forests() {
    let left = forest(vec![leaf("a"), tree("b", vec![leaf("c")])]);
    let right = forest(vec![leaf("d")]);
    let joined = forest_rank::forest::concat(left.clone(), right.clone());
    assert_eq!(joined, forest(vec![leaf("a"), tree("b", vec![leaf("c")]), leaf("d")]));
    assert_eq!(joined.size(), 4);
    assert_eq!(forest_rank::forest::concat(left.clone(), Node::Empty), left);
    assert_eq!(forest_rank::forest::concat(Node::Empty, right.clone()), right);
}

#[test]
fn clone_is_equal() {
    let f = sample();
    assert_eq!(f.clone(), f);
}
