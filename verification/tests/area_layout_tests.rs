use splitype_editor::area_layout::{
    AreaLayoutState, AreaType, LayoutNode, LayoutPreset, SplitDirection, SplitterDragSession,
};

#[test]
fn test_area_layout_suite() {
    let mut layout = AreaLayoutState::default();
    assert_eq!(layout.root.count_leaves(), 1);

    layout.split_area(1, SplitDirection::Horizontal);
    assert_eq!(layout.root.count_leaves(), 2);

    layout.split_area(2, SplitDirection::Vertical);
    assert_eq!(layout.root.count_leaves(), 3);

    layout.close_area(2);
    assert_eq!(layout.root.count_leaves(), 2);

    layout.change_area_type(1, AreaType::Source);
    assert_eq!(layout.root.find_leaf_area(1), Some(AreaType::Source));

    layout.toggle_maximize(1);
    assert_eq!(layout.maximized_leaf, Some(1));
    layout.toggle_maximize(1);
    assert_eq!(layout.maximized_leaf, None);

    // Pointer at 100 of a 1000 px span, moved to 200: a tenth of the span,
    // 1000 ten-thousandths.
    layout.active_splitter_drag = Some(SplitterDragSession {
        split_id: 1,
        direction: SplitDirection::Horizontal,
        start_ratio: 5000,
    });
    layout.update_splitter_drag(1000);
    layout.end_splitter_drag();
    assert_eq!(layout.active_splitter_drag, None);
}

fn split_ratio(node: &LayoutNode, split_id: usize) -> Option<u16> {
    match node {
        LayoutNode::Leaf { .. } => None,
        LayoutNode::Split { id, ratio, first, second, .. } => {
            if *id == split_id {
                Some(*ratio)
            } else {
                split_ratio(first, split_id).or_else(|| split_ratio(second, split_id))
            }
        }
    }
}

#[test]
fn splitter_drag_moves_ratio_and_clamps() {
    let mut layout = AreaLayoutState::new();
    layout.split_area(1, SplitDirection::Horizontal);
    let split_id = match &layout.root {
        LayoutNode::Split { id, ratio, .. } => {
            assert_eq!(*ratio, 5000);
            *id
        }
        LayoutNode::Leaf { .. } => panic!("root should be a split"),
    };
    layout.active_splitter_drag = Some(SplitterDragSession {
        split_id,
        direction: SplitDirection::Horizontal,
        start_ratio: 5000,
    });
    layout.update_splitter_drag(1000);
    assert_eq!(split_ratio(&layout.root, split_id), Some(6000));
    layout.update_splitter_drag(9000);
    assert_eq!(split_ratio(&layout.root, split_id), Some(9200));
    layout.update_splitter_drag(-9000);
    assert_eq!(split_ratio(&layout.root, split_id), Some(800));
    layout.end_splitter_drag();
    layout.update_splitter_drag(100);
    assert_eq!(split_ratio(&layout.root, split_id), Some(800));
}

#[test]
fn split_gives_new_leaf_companion_type_and_fresh_id() {
    let mut layout = AreaLayoutState::new();
    assert_eq!(layout.next_id, 2);
    layout.split_area(1, SplitDirection::Vertical);
    assert_eq!(layout.next_id, 3);
    assert_eq!(layout.root.find_leaf_area(1), Some(AreaType::Block));
    assert_eq!(layout.root.count_leaves(), 2);
    // Splitting an absent leaf leaves the tree alone.
    let before = layout.clone();
    layout.split_area(42, SplitDirection::Vertical);
    assert_eq!(layout.root, before.root);
}

#[test]
fn split_then_close_restores_tree() {
    let mut layout = AreaLayoutState::new();
    layout.apply_preset(LayoutPreset::DualView);
    let before = layout.root.clone();
    let new_id = layout.next_id;
    layout.split_area(2, SplitDirection::Vertical);
    assert_eq!(layout.root.count_leaves(), 3);
    layout.close_area(new_id);
    assert_eq!(layout.root, before);
}

#[test]
fn close_last_area_is_refused() {
    let mut layout = AreaLayoutState::new();
    layout.close_area(1);
    assert_eq!(layout.root.count_leaves(), 1);
    assert_eq!(layout.root.find_leaf_area(1), Some(AreaType::Block));
}

#[test]
fn close_maximized_area_clears_maximize() {
    let mut layout = AreaLayoutState::new();
    layout.apply_preset(LayoutPreset::DualView);
    layout.toggle_maximize(3);
    assert_eq!(layout.maximized_leaf, Some(3));
    layout.close_area(3);
    assert_eq!(layout.maximized_leaf, None);
    assert_eq!(layout.root.find_leaf_area(3), None);
    assert_eq!(layout.root.find_leaf_area(2), Some(AreaType::Block));
}

#[test]
fn presets_install_their_trees() {
    let mut layout = AreaLayoutState::new();
    layout.apply_preset(LayoutPreset::TripleView);
    assert_eq!(layout.root.count_leaves(), 3);
    assert_eq!(layout.next_id, 6);
    assert_eq!(layout.root.find_leaf_area(2), Some(AreaType::Explorer));
    assert_eq!(layout.root.find_leaf_area(4), Some(AreaType::Block));
    assert_eq!(layout.root.find_leaf_area(5), Some(AreaType::Source));
    layout.apply_preset(LayoutPreset::OutlineView);
    assert_eq!(layout.root.find_leaf_area(2), Some(AreaType::Outline));
    assert_eq!(split_ratio(&layout.root, 3), Some(7000));
    layout.apply_preset(LayoutPreset::DefaultEditor);
    assert_eq!(layout.root.count_leaves(), 1);
    assert_eq!(layout.next_id, 2);
    assert_eq!(LayoutPreset::all().len(), 5);
    assert_eq!(LayoutPreset::DualView.name(), "Dual (Block | Source)");
}

#[test]
fn swap_children_twice_restores() {
    let mut layout = AreaLayoutState::new();
    layout.apply_preset(LayoutPreset::DualView);
    let before = layout.root.clone();
    layout.swap_split_children(1);
    match &layout.root {
        LayoutNode::Split { first, second, .. } => {
            assert_eq!(**first, LayoutNode::Leaf { id: 3, area_type: AreaType::Source });
            assert_eq!(**second, LayoutNode::Leaf { id: 2, area_type: AreaType::Block });
        }
        LayoutNode::Leaf { .. } => panic!("root should stay a split"),
    }
    layout.swap_split_children(1);
    assert_eq!(layout.root, before);
}

#[test]
fn dropdown_toggles() {
    let mut layout = AreaLayoutState::new();
    layout.toggle_dropdown(1);
    assert_eq!(layout.active_dropdown_leaf, Some(1));
    layout.toggle_dropdown(2);
    assert_eq!(layout.active_dropdown_leaf, Some(2));
    layout.toggle_dropdown(2);
    assert_eq!(layout.active_dropdown_leaf, None);
}

#[test]
fn area_type_names() {
    assert_eq!(AreaType::all().len(), 6);
    assert_eq!(AreaType::Source.name(), "Source");
    assert_eq!(AreaType::Wysiwyg.name(), "WYSIWYG");
    assert_eq!(AreaType::Block.description(), "Visual block editor (Rendered)");
}
