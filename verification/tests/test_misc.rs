use susume::hierarchy::absolute_index;
use susume::hierarchy::parent_index;
use susume::hierarchy::BarNode;

/// top > A, B > (X, Y), C > (P, Q), D
fn sample_tree() -> BarNode {
    let mut top = BarNode::leaf(false);
    let a = BarNode::leaf(false);
    let mut b = BarNode::leaf(false);
    b.add_child(BarNode::leaf(false));
    b.add_child(BarNode::leaf(false));
    let mut c = BarNode::leaf(false);
    c.add_child(BarNode::leaf(false));
    c.add_child(BarNode::leaf(false));
    let d = BarNode::leaf(false);
    top.add_child(a);
    top.add_child(b);
    top.add_child(c);
    top.add_child(d);
    top
}

#[test]
fn test_descendant_count() {
    let top = sample_tree();
    assert_eq!(top.descendant_count(), 9);
    assert_eq!(top.children[0].descendant_count(), 1);
    assert_eq!(top.children[1].descendant_count(), 3);
    assert_eq!(top.children[2].descendant_count(), 3);
    assert_eq!(top.children[3].descendant_count(), 1);
    assert_eq!(top.children[1].children[0].descendant_count(), 1);
    assert_eq!(top.children[1].children[1].descendant_count(), 1);
    assert_eq!(top.children[2].children[0].descendant_count(), 1);
    assert_eq!(top.children[2].children[1].descendant_count(), 1);
}

#[test]
fn test_parent_index() {
    // ids: top 0; A 1, B 2, X 3, Y 4, C 5, P 6, Q 7, D 8
    let top_children = [1usize, 2, 5, 8];
    let b_children = [3usize, 4];
    let c_children = [6usize, 7];

    assert_eq!(parent_index(None, 0), Some(0));
    assert_eq!(parent_index(Some(&top_children), 1), Some(1));
    assert_eq!(parent_index(Some(&top_children), 2), Some(2));
    assert_eq!(parent_index(Some(&top_children), 5), Some(3));
    assert_eq!(parent_index(Some(&top_children), 8), Some(4));
    assert_eq!(parent_index(Some(&b_children), 3), Some(1));
    assert_eq!(parent_index(Some(&b_children), 4), Some(2));
    assert_eq!(parent_index(Some(&c_children), 6), Some(1));
    assert_eq!(parent_index(Some(&c_children), 7), Some(2));
}

#[test]
fn test_absolute_index() {
    let top = sample_tree();
    assert_eq!(absolute_index(&top, &[]), 0);
    assert_eq!(absolute_index(&top, &[0]), 1);
    assert_eq!(absolute_index(&top, &[1]), 2);
    assert_eq!(absolute_index(&top, &[2]), 5);
    assert_eq!(absolute_index(&top, &[3]), 8);
    assert_eq!(absolute_index(&top, &[1, 0]), 3);
    assert_eq!(absolute_index(&top, &[1, 1]), 4);
    assert_eq!(absolute_index(&top, &[2, 0]), 6);
    assert_eq!(absolute_index(&top, &[2, 1]), 7);
}

#[test]
fn parent_index_of_unknown_child_is_none() {
    assert_eq!(parent_index(Some(&[1usize, 2]), 9), None);
}
