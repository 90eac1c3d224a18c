use forest_rank::commands::{input_mode_commands, normal_mode_commands, select_mode_commands};
use forest_rank::display::ForestIter;
use forest_rank::forest::Node;
use forest_rank::select::append_index;

fn leaf(label: &str, sibling: Node) -> Node {
    Node::new(label.to_string(), Node::Empty, sibling)
}

fn lines(f: &Node) -> Vec<String> {
    let mut out = Vec::new();
    let mut it = ForestIter::new(f);
    while let Some(line) = it.next() {
        out.push(line);
    }
    out
}

#[test]
fn append_index_extends_number() {
    assert_eq!(append_index(1, '2', 20), 12);
    assert_eq!(append_index(0, '7', 20), 7);
}

#[test]
fn append_index_falls_back_to_digit() {
    assert_eq!(append_index(1, '2', 10), 2);
    assert_eq!(append_index(usize::MAX, '9', usize::MAX), 9);
}

#[test]
fn append_index_keeps_index() {
    assert_eq!(append_index(5, '7', 6), 5);
    assert_eq!(append_index(3, 'x', 100), 3);
}

#[test]
fn forest_lines_flat_and_nested() {
    // 0, 1[2, 3], 4
    let children = leaf("2", leaf("3", Node::Empty));
    let f = leaf("0", Node::new("1".to_string(), children, leaf("4", Node::Empty)));
    assert_eq!(lines(&f), vec!["0", "1", "├──2", "└──3", "4"]);
}

#[test]
fn forest_lines_deep() {
    // a[b[c], d]
    let b = Node::new("b".to_string(), leaf("c", Node::Empty), leaf("d", Node::Empty));
    let f = Node::new("a".to_string(), b, Node::Empty);
    assert_eq!(lines(&f), vec!["a", "├──b", "│  └──c", "└──d"]);
    assert!(lines(&Node::Empty).is_empty());
}

#[test]
fn command_lists() {
    assert_eq!(normal_mode_commands(0, false), vec![("I", "Insert"), ("Q", "Quit")]);
    assert_eq!(
        normal_mode_commands(3, true),
        vec![("I", "Insert"), ("S", "Select"), ("C", "Compare"), ("Q", "Quit")]
    );
    assert_eq!(normal_mode_commands(3, false), vec![("I", "Insert"), ("S", "Select"), ("Q", "Quit")]);
    assert!(input_mode_commands(true).is_empty());
    assert_eq!(input_mode_commands(false), vec![("Enter", "Submit")]);
    assert_eq!(select_mode_commands(1), vec![("Enter", "Confirm")]);
    assert_eq!(
        select_mode_commands(2),
        vec![("0-9", "Jump"), ("Bksp │ ↑", "Up"), ("Space │ ↓", "Down"), ("Enter", "Confirm")]
    );
}
