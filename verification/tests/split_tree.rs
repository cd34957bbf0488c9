use multiplex::split_tree::{flat_split, PresetShares, RatioMark, SplitAxis, SplitEdge, SplitNode, SplitPreset};

fn leaf(id: u64) -> SplitNode<f32> {
    SplitNode::Leaf(id)
}

fn split(axis: SplitAxis, ratio: f32, a: SplitNode<f32>, b: SplitNode<f32>) -> SplitNode<f32> {
    SplitNode::Split { axis, ratio, a: Box::new(a), b: Box::new(b) }
}

/// 1 on the left; 2 over 3 on the right.
fn three_panes() -> SplitNode<f32> {
    split(SplitAxis::Horizontal, 0.56, leaf(1), split(SplitAxis::Vertical, 0.5, leaf(2), leaf(3)))
}

fn ratio_of(node: &SplitNode<f32>) -> f32 {
    match node {
        SplitNode::Split { ratio, .. } => *ratio,
        SplitNode::Leaf(_) => panic!("expected a split"),
    }
}

const SHARES: PresetShares<f32> = PresetShares { half: 0.5, main: 0.6, third: 1.0 / 3.0 };

#[test]
fn swapping_panes_keeps_the_shape_and_ratios() {
    let mut tree = three_panes();
    assert!(tree.swap_leaves(1, 3));
    assert_eq!(tree.leaf_ids(), vec![3, 2, 1]);
    assert_eq!(ratio_of(&tree), 0.56);
    assert!(!tree.swap_leaves(1, 1));
    assert!(!tree.swap_leaves(1, 9));
    assert_eq!(tree.leaf_ids(), vec![3, 2, 1]);
}

#[test]
fn moving_a_pane_places_it_on_the_chosen_edge() {
    let mut tree = three_panes();
    assert!(tree.move_leaf(3, 1, SplitEdge::Top, 0.5));
    assert_eq!(tree.leaf_ids(), vec![3, 1, 2]);
    match &tree {
        SplitNode::Split { a, .. } => match a.as_ref() {
            SplitNode::Split { axis, a, b, .. } => {
                assert_eq!(*axis, SplitAxis::Vertical);
                assert_eq!(a.leaf_ids(), vec![3]);
                assert_eq!(b.leaf_ids(), vec![1]);
            }
            SplitNode::Leaf(_) => panic!("expected the moved pane beside its target"),
        },
        SplitNode::Leaf(_) => panic!("expected a split"),
    }
}

#[test]
fn moving_a_pane_onto_itself_or_a_stranger_changes_nothing() {
    let mut tree = three_panes();
    assert!(!tree.move_leaf(2, 2, SplitEdge::Left, 0.5));
    assert!(!tree.move_leaf(2, 9, SplitEdge::Left, 0.5));
    assert!(!tree.move_leaf(9, 2, SplitEdge::Left, 0.5));
    assert_eq!(tree.leaf_ids(), vec![1, 2, 3]);
}

#[test]
fn a_split_puts_the_new_pane_beside_its_target() {
    let mut tree = three_panes();
    assert!(tree.split_leaf(2, &leaf(7), SplitAxis::Horizontal, false, 0.5));
    assert_eq!(tree.leaf_ids(), vec![1, 2, 7, 3]);
    assert!(!tree.split_leaf(9, &leaf(8), SplitAxis::Horizontal, true, 0.5));
    assert_eq!(tree.leaf_count(), 4);
    assert!(tree.contains(7));
    assert!(!tree.contains(8));
    assert_eq!(tree.first_leaf(), 1);
}

#[test]
fn removing_a_pane_collapses_its_split() {
    let tree = three_panes();
    let rest = tree.duplicate().without_pane(2).unwrap();
    assert_eq!(rest.leaf_ids(), vec![1, 3]);
    assert_eq!(ratio_of(&rest), 0.56);
    assert!(leaf(4).without_pane(4).is_none());
    assert_eq!(tree.weight(SplitAxis::Horizontal), 2);
    assert_eq!(tree.weight(SplitAxis::Vertical), 1);
}

#[test]
fn a_flat_layout_leans_right() {
    let tree = flat_split(&[1, 2, 3], SplitAxis::Vertical, 0.5).unwrap();
    assert_eq!(tree.leaf_ids(), vec![1, 2, 3]);
    match &tree {
        SplitNode::Split { b, .. } => assert_eq!(b.leaf_ids(), vec![3]),
        SplitNode::Leaf(_) => panic!("expected a split"),
    }
    assert!(flat_split::<f32>(&[], SplitAxis::Vertical, 0.5).is_none());
}

#[test]
fn every_preset_places_its_panes_in_order() {
    for preset in SplitPreset::all() {
        let ids: Vec<u64> = (1..=preset.pane_count() as u64).collect();
        let tree = preset.build(&ids, SHARES).unwrap();
        assert_eq!(tree.leaf_ids(), ids, "{preset:?}");
        assert!(preset.build(&ids[1..], SHARES).is_none());
    }
    let main = SplitPreset::MainAndStack.build(&[1, 2, 3], SHARES).unwrap();
    assert_eq!(ratio_of(&main), 0.6);
}

#[test]
fn edges_and_marks_say_what_they_are() {
    assert_eq!(SplitEdge::Left.axis_and_order(), (SplitAxis::Horizontal, true));
    assert_eq!(SplitEdge::Bottom.axis_and_order(), (SplitAxis::Vertical, false));
    assert_eq!(RatioMark::Half.label(), "\u{00bd}");
    assert_eq!(RatioMark::OneThird.label(), "\u{2153}");
    assert_eq!(RatioMark::TwoThirds.label(), "\u{2154}");
}
