use susume::hierarchy::parent_index;
use susume::hierarchy::absolute_index;
use susume::hierarchy::drawn_paths;
use susume::hierarchy::BarNode;

fn bar(hidden: bool, children: Vec<BarNode>) -> BarNode {
    let mut n = BarNode::leaf(hidden);
    for c in children {
        n.add_child(c);
    }
    n
}

fn leaf(hidden: bool) -> BarNode {
    BarNode::leaf(hidden)
}

#[test]
fn test_visible_descendant_count_all_visible() {
    let top = bar(false, vec![leaf(false), bar(false, vec![leaf(false), leaf(false)]), leaf(false), leaf(false)]);
    assert_eq!(top.visible_descendant_count(), 7);
    assert_eq!(top.children[0].visible_descendant_count(), 1);
    assert_eq!(top.children[1].visible_descendant_count(), 3);
    assert_eq!(top.children[2].visible_descendant_count(), 1);
}

#[test]
fn test_visible_descendant_count_hidden_leaf() {
    let top = bar(false, vec![leaf(false), leaf(true)]);
    assert_eq!(top.children[1].visible_descendant_count(), 0);
    assert_eq!(top.visible_descendant_count(), 2);
}

#[test]
fn test_visible_descendant_count_hidden_parent_visible_children() {
    let top = bar(true, vec![leaf(false), leaf(false), leaf(false)]);
    assert_eq!(top.visible_descendant_count(), 3);
}

#[test]
fn test_visible_descendant_count_hidden_subtree() {
    let top = bar(false, vec![bar(true, vec![leaf(false), leaf(false)])]);
    assert_eq!(top.children[0].visible_descendant_count(), 2);
    assert_eq!(top.visible_descendant_count(), 3);
}

#[test]
fn test_visible_descendant_count_all_hidden() {
    let top = bar(true, vec![leaf(true), leaf(true)]);
    assert_eq!(top.visible_descendant_count(), 0);
}

#[test]
fn test_visible_descendant_count_deep_nesting() {
    let top = bar(false, vec![bar(false, vec![bar(false, vec![leaf(false)])])]);
    assert_eq!(top.visible_descendant_count(), 4);
    assert_eq!(top.children[0].visible_descendant_count(), 3);
    assert_eq!(top.children[0].children[0].visible_descendant_count(), 2);
}

#[test]
fn test_absolute_index_hidden_parent() {
    let top = bar(true, vec![leaf(false), leaf(false), leaf(false)]);
    assert_eq!(absolute_index(&top, &[]), 0);
    assert_eq!(absolute_index(&top, &[0]), 0);
    assert_eq!(absolute_index(&top, &[1]), 1);
    assert_eq!(absolute_index(&top, &[2]), 2);
}

#[test]
fn test_absolute_index_hidden_sibling() {
    let top = bar(false, vec![leaf(true), leaf(false), leaf(false)]);
    assert_eq!(absolute_index(&top, &[]), 0);
    assert_eq!(absolute_index(&top, &[0]), 1);
    assert_eq!(absolute_index(&top, &[1]), 1);
    assert_eq!(absolute_index(&top, &[2]), 2);
}

#[test]
fn test_absolute_index_hidden_sibling_with_children() {
    let top = bar(false, vec![leaf(false), bar(true, vec![leaf(false), leaf(false)]), leaf(false)]);
    assert_eq!(absolute_index(&top, &[]), 0);
    assert_eq!(absolute_index(&top, &[0]), 1);
    assert_eq!(absolute_index(&top, &[2]), 4);
}

#[test]
fn test_absolute_index_all_visible_unchanged() {
    let top = bar(
        false,
        vec![
            leaf(false),
            bar(false, vec![leaf(false), leaf(false)]),
            bar(false, vec![leaf(false), leaf(false)]),
            leaf(false),
        ],
    );
    assert_eq!(absolute_index(&top, &[]), 0);
    assert_eq!(absolute_index(&top, &[0]), 1);
    assert_eq!(absolute_index(&top, &[1]), 2);
    assert_eq!(absolute_index(&top, &[1, 0]), 3);
    assert_eq!(absolute_index(&top, &[1, 1]), 4);
    assert_eq!(absolute_index(&top, &[2]), 5);
    assert_eq!(absolute_index(&top, &[2, 0]), 6);
    assert_eq!(absolute_index(&top, &[2, 1]), 7);
    assert_eq!(absolute_index(&top, &[3]), 8);
}

#[test]
fn test_render_hidden_parent_visible_children() {
    let top = bar(true, vec![leaf(false), leaf(false)]);
    let names = |p: &Vec<usize>| -> &'static str {
        match p.as_slice() {
            [] => "top",
            [0] => "child_a",
            _ => "child_b",
        }
    };
    let output: String = drawn_paths(&top).iter().map(|p| names(p)).collect::<Vec<_>>().join("\n");
    assert!(!output.contains("top"));
    assert!(output.contains("child_a"));
    assert!(output.contains("child_b"));
}

#[test]
fn test_render_hidden_child() {
    let top = bar(false, vec![leaf(false), leaf(true)]);
    let names = |p: &Vec<usize>| -> &'static str {
        match p.as_slice() {
            [] => "top",
            [0] => "visible",
            _ => "hidden_child",
        }
    };
    let output: String = drawn_paths(&top).iter().map(|p| names(p)).collect::<Vec<_>>().join("\n");
    assert!(output.contains("top"));
    assert!(output.contains("visible"));
    assert!(!output.contains("hidden_child"));
}

#[test]
fn test_render_line_count_accounts_for_hidden() {
    let top = bar(true, vec![leaf(false), leaf(false), leaf(false)]);
    assert_eq!(drawn_paths(&top).len(), 3);
}

#[test]
fn test_render_line_count_all_visible() {
    let top = bar(false, vec![leaf(false), leaf(false)]);
    assert_eq!(drawn_paths(&top).len(), 3);
}

#[test]
fn drawn_line_of_each_visible_bar_is_its_absolute_index() {
    // top > A(hidden) > (X, Y), B, C(hidden)
    let top = bar(false, vec![bar(true, vec![leaf(false), leaf(false)]), leaf(false), leaf(true)]);
    let paths = drawn_paths(&top);
    assert_eq!(paths, vec![vec![], vec![0, 0], vec![0, 1], vec![1]]);
    for (line, p) in paths.iter().enumerate() {
        assert_eq!(absolute_index(&top, p), line);
    }
    assert_eq!(top.visible_descendant_count(), paths.len());
    assert_eq!(top.descendant_count(), 6);
}

fn chain_tree() -> BarNode {
    // top(10) -> [other(7), mid(5, linked) -> [low(1, linked) -> [tip(0, unlinked)]]]
    let mut top = BarNode::new(false, false, 10);
    let other = BarNode::new(false, true, 7);
    let mut mid = BarNode::new(false, true, 5);
    let mut low = BarNode::new(false, true, 1);
    low.add_child(BarNode::new(false, false, 0));
    mid.add_child(low);
    top.add_child(other);
    top.add_child(mid);
    top
}

#[test]
fn increment_climbs_the_linked_chain() {
    let mut top = chain_tree();
    top.increment_at(&[1, 0], 3);
    assert_eq!(top.children[1].children[0].position, 4);
    assert_eq!(top.children[1].position, 8);
    assert_eq!(top.position, 13);
    assert_eq!(top.children[0].position, 7);
    assert_eq!(top.children[1].children[0].children[0].position, 0);
}

#[test]
fn increment_stops_at_an_unlinked_bar() {
    let mut top = chain_tree();
    top.increment_at(&[1, 0, 0], 2);
    assert_eq!(top.children[1].children[0].children[0].position, 2);
    assert_eq!(top.children[1].children[0].position, 1);
    assert_eq!(top.children[1].position, 5);
    assert_eq!(top.position, 10);
}

#[test]
fn increment_of_the_top_bar_changes_it_alone() {
    let mut top = chain_tree();
    top.increment_at(&[], 4);
    assert_eq!(top.position, 14);
    assert_eq!(top.children[0].position, 7);
    assert_eq!(top.children[1].position, 5);
}

#[test]
fn increment_wraps_at_the_largest_position() {
    let mut top = BarNode::new(false, false, u64::MAX);
    top.increment_at(&[], 2);
    assert_eq!(top.position, 1);
}

#[test]
fn decrement_climbs_the_linked_chain_and_stops_at_zero() {
    let mut top = chain_tree();
    top.decrement_at(&[1, 0], 3);
    assert_eq!(top.children[1].children[0].position, 0);
    assert_eq!(top.children[1].position, 2);
    assert_eq!(top.position, 7);
    assert_eq!(top.children[0].position, 7);
}

#[test]
fn decrement_undoes_increment_along_the_chain() {
    let mut top = chain_tree();
    top.increment_at(&[1, 0], 9);
    top.decrement_at(&[1, 0], 9);
    assert_eq!(top.children[1].children[0].position, 1);
    assert_eq!(top.children[1].position, 5);
    assert_eq!(top.position, 10);
}

#[test]
fn added_child_comes_last_and_adds_its_counts() {
    let mut top = bar(false, vec![leaf(false), leaf(true)]);
    let before = top.descendant_count();
    let visible_before = top.visible_descendant_count();
    let child = bar(false, vec![leaf(false), leaf(true)]);
    let child_count = child.descendant_count();
    let child_visible = child.visible_descendant_count();
    top.add_child(child);
    assert_eq!(top.children.len(), 3);
    assert_eq!(top.children[2].children.len(), 2);
    assert_eq!(top.descendant_count(), before + child_count);
    assert_eq!(top.descendant_count(), 6);
    assert_eq!(top.visible_descendant_count(), visible_before + child_visible);
    assert_eq!(absolute_index(&top, &[2]), visible_before);
    assert_eq!(absolute_index(&top, &[2]), 2);
}

#[test]
fn added_child_keeps_the_parents_flags() {
    let mut top = BarNode::new(true, true, 9);
    top.add_child(BarNode::leaf(false));
    assert!(top.hidden);
    assert!(top.linked);
    assert_eq!(top.position, 9);
}

#[test]
fn added_child_is_found_after_the_existing_children() {
    let mut ids: Vec<usize> = vec![4, 9, 2];
    ids.push(11);
    assert_eq!(parent_index(Some(&ids), 11), Some(4));
}
