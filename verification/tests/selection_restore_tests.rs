use splitype_editor::selection_restore::{
    source_mode_selection, selection_restore_target, SelectionRestoreTarget, SourceTargetMapping,
};

fn plain_block(start: usize, end: usize) -> SourceTargetMapping {
    let len = end - start;
    SourceTargetMapping {
        full_source_range: start..end,
        content_to_source: (0..=len).collect(),
        source_to_content: (0..=len).collect(),
    }
}

/// A quote `> abc` at `start`: two source bytes of syntax before the
/// content.
fn quote_block(start: usize) -> SourceTargetMapping {
    SourceTargetMapping {
        full_source_range: start..start + 5,
        content_to_source: vec![2, 3, 4, 5],
        source_to_content: vec![0, 0, 0, 1, 2, 3],
    }
}

#[test]
fn exact_selection_maps_into_its_block() {
    let mappings = vec![plain_block(0, 5), quote_block(7)];
    assert_eq!(
        selection_restore_target(&mappings, &(1..4)),
        SelectionRestoreTarget::Exact { mapping_index: 0, content_range: 1..4 }
    );
    assert_eq!(
        selection_restore_target(&mappings, &(9..12)),
        SelectionRestoreTarget::Exact { mapping_index: 1, content_range: 0..3 }
    );
}

#[test]
fn offsets_inside_syntax_fall_back_to_a_caret() {
    let mappings = vec![plain_block(0, 5), quote_block(7)];
    assert_eq!(
        selection_restore_target(&mappings, &(8..8)),
        SelectionRestoreTarget::Caret { mapping_index: 1, content_offset: 0 }
    );
}

#[test]
fn caret_goes_to_first_nearest_block() {
    let mappings = vec![plain_block(0, 5), quote_block(7)];
    assert_eq!(
        selection_restore_target(&mappings, &(6..6)),
        SelectionRestoreTarget::Caret { mapping_index: 0, content_offset: 5 }
    );
    assert_eq!(
        selection_restore_target(&mappings, &(2..40)),
        SelectionRestoreTarget::Caret { mapping_index: 1, content_offset: 3 }
    );
    assert_eq!(selection_restore_target(&[], &(0..0)), SelectionRestoreTarget::NoMapping);
}

#[test]
fn source_selection_is_clamped_to_document() {
    assert_eq!(source_mode_selection(&(3..9), None, 5), 5..5);
    assert_eq!(source_mode_selection(&(1..2), None, 5), 2..2);
    assert_eq!(source_mode_selection(&(1..2), Some(4), 5), 4..4);
    assert_eq!(source_mode_selection(&(1..2), Some(8), 5), 5..5);
}
