use splitype_editor::projection::{
    CollapsedCaretAffinity, EmphasisMarker, ExpandedInlineKind, ExpandedInlineProjection,
    ExpandedInlineSegmentKind, InlineFootnoteReference, InlineFragment, InlineLink, InlineScript,
    InlineStyle, ProjectedFragment,
};

fn frag(text: &str, style: InlineStyle) -> InlineFragment {
    InlineFragment {
        text: text.to_string(),
        style,
        link: None,
        footnote: None,
        markdown_script_delimiters: true,
    }
}

fn bold() -> InlineStyle {
    InlineStyle { bold: true, ..InlineStyle::plain() }
}

fn syntax_text(p: &ProjectedFragment) -> Option<&str> {
    match p {
        ProjectedFragment::Syntax { text, .. } => Some(text.as_str()),
        _ => None,
    }
}

fn build(
    fragments: &[InlineFragment],
    selected: std::ops::Range<usize>,
) -> Option<ExpandedInlineProjection> {
    ExpandedInlineProjection::build_with_prefix(fragments, selected, None, None, None)
}

#[test]
fn touched_bold_fragment_shows_its_markers() {
    let fragments = vec![frag("bold", bold())];
    let p = build(&fragments, 2..2).expect("touched bold projects");
    assert_eq!(p.projected.len(), 3);
    assert_eq!(syntax_text(&p.projected[0]), Some("**"));
    assert!(matches!(p.projected[1], ProjectedFragment::Source { fragment_index: 0 }));
    assert_eq!(syntax_text(&p.projected[2]), Some("**"));
    let kinds: Vec<_> = p.segments.iter().map(|s| s.kind).collect();
    let b = ExpandedInlineKind::BoldMarkdown { marker: '*' };
    assert_eq!(
        kinds,
        vec![
            ExpandedInlineSegmentKind::OpeningDelimiter(b),
            ExpandedInlineSegmentKind::StyledText,
            ExpandedInlineSegmentKind::ClosingDelimiter(b),
        ]
    );
    assert_eq!(p.segments[0].display_range, 0..2);
    assert_eq!(p.segments[1].display_range, 2..6);
    assert_eq!(p.segments[1].plain_range, 0..4);
    assert_eq!(p.segments[2].display_range, 6..8);
    assert_eq!(p.plain_to_display_cursor, vec![2, 3, 4, 5, 6]);
    assert_eq!(p.display_to_plain, vec![0, 0, 0, 1, 2, 3, 4, 4, 4]);
    assert_eq!(p.block_prefix_range, None);
    assert_eq!(p.delimiter_ranges(), vec![0..2, 6..8]);
}

#[test]
fn untouched_or_plain_text_projects_nothing() {
    let fragments = vec![frag("ab", InlineStyle::plain()), frag("cd", bold())];
    assert!(build(&fragments, 0..0).is_none());
    assert!(build(&[frag("plain", InlineStyle::plain())], 2..2).is_none());
    assert!(build(&[], 0..0).is_none());
    // The caret at the fragment's edge touches it.
    assert!(build(&fragments, 2..2).is_some());
    // A selection must overlap the fragment.
    assert!(build(&fragments, 0..2).is_none());
    assert!(build(&fragments, 1..3).is_some());
}

#[test]
fn ime_range_touches_fragment() {
    let fragments = vec![frag("ab", InlineStyle::plain()), frag("cd", bold())];
    let marked = Some(3..4);
    let p = ExpandedInlineProjection::build_with_prefix(&fragments, 0..0, marked, None, None);
    assert!(p.is_some());
    let empty_mark = Some(3..3);
    assert!(ExpandedInlineProjection::build_with_prefix(&fragments, 0..0, empty_mark, None, None).is_none());
}

#[test]
fn strikethrough_always_shows() {
    let strike = InlineStyle { strikethrough: true, ..InlineStyle::plain() };
    let fragments = vec![frag("ab", InlineStyle::plain()), frag("x", strike)];
    let p = build(&fragments, 0..0).expect("strikethrough always projects");
    assert_eq!(syntax_text(&p.projected[1]), Some("~~"));
    assert_eq!(syntax_text(&p.projected[3]), Some("~~"));
    assert_eq!(p.segments[0].kind, ExpandedInlineSegmentKind::PlainText);
    assert_eq!(p.plain_to_display_cursor, vec![0, 1, 4, 5]);
}

#[test]
fn emphasis_nesting_and_markers() {
    let style = InlineStyle {
        bold: true,
        italic: true,
        italic_marker: EmphasisMarker::Underscore,
        ..InlineStyle::plain()
    };
    let p = build(&[frag("t", style)], 0..0).unwrap();
    let texts: Vec<_> = p.projected.iter().filter_map(syntax_text).collect();
    assert_eq!(texts, vec!["**", "_", "_", "**"]);
    let outer_italic = InlineStyle { italic_outer: true, ..style };
    let p = build(&[frag("t", outer_italic)], 0..0).unwrap();
    let texts: Vec<_> = p.projected.iter().filter_map(syntax_text).collect();
    assert_eq!(texts, vec!["_", "**", "**", "_"]);
    let code = InlineStyle { code: true, ..InlineStyle::plain() };
    let p = build(&[frag("c", code)], 1..1).unwrap();
    match &p.projected[0] {
        ProjectedFragment::Syntax { text, style, .. } => {
            assert_eq!(text, "`");
            assert!(!style.code);
        }
        _ => panic!("expected a code delimiter"),
    }
}

#[test]
fn script_markers_follow_serialisation() {
    let sup = InlineStyle { script: InlineScript::Superscript, ..InlineStyle::plain() };
    let p = build(&[frag("2", sup)], 9..9).unwrap();
    let texts: Vec<_> = p.projected.iter().filter_map(syntax_text).collect();
    assert_eq!(texts, vec!["^", "^"]);
    let mut html = frag("2", sup);
    html.markdown_script_delimiters = false;
    let p = build(&[html], 9..9).unwrap();
    let texts: Vec<_> = p.projected.iter().filter_map(syntax_text).collect();
    assert_eq!(texts, vec!["<sup>", "</sup>"]);
    let sub_strike = InlineStyle {
        script: InlineScript::Subscript,
        strikethrough: true,
        ..InlineStyle::plain()
    };
    let p = build(&[frag("x", sub_strike)], 9..9).unwrap();
    let texts: Vec<_> = p.projected.iter().filter_map(syntax_text).collect();
    assert_eq!(texts, vec!["~~", "<sub>", "</sub>", "~~"]);
}

#[test]
fn footnote_reference_always_shows_with_scaled_maps() {
    let mut f = frag("1", InlineStyle::plain());
    f.footnote = Some(InlineFootnoteReference { id: "note".to_string() });
    let p = build(&[f], 9..9).expect("footnotes always project");
    let texts: Vec<_> = p.projected.iter().filter_map(syntax_text).collect();
    assert_eq!(texts, vec!["[^", "note", "]"]);
    assert_eq!(p.segments[1].kind, ExpandedInlineSegmentKind::FootnoteIdText);
    assert_eq!(p.segments[1].display_range, 2..6);
    assert_eq!(p.plain_to_display_cursor, vec![2, 6]);
    assert_eq!(p.display_to_plain, vec![0, 0, 0, 0, 0, 0, 1, 1]);
    assert_eq!(p.footnote_spans.len(), 1);
    assert_eq!(p.footnote_spans[0].display_range, 0..7);
    assert_eq!(p.footnote_spans[0].plain_range, 0..1);
    assert!(p.footnote_span_fully_covering_range(&(2..4)).is_some());
    assert!(p.footnote_span_fully_covering_range(&(2..9)).is_none());
}

fn link(key: usize) -> InlineLink {
    InlineLink {
        key,
        open_marker: "[".to_string(),
        middle_marker: Some("](".to_string()),
        editable_text: Some("https://x".to_string()),
        close_marker: ")".to_string(),
    }
}

#[test]
fn touched_link_shows_label_target_and_span() {
    let mut a = frag("si", InlineStyle::plain());
    a.link = Some(link(1));
    let mut b = frag("te", bold());
    b.link = Some(link(1));
    let tail = frag("!", InlineStyle::plain());
    let fragments = vec![a, b, tail];
    let p = build(&fragments, 3..3).expect("touched link projects");
    let texts: Vec<_> = p.projected.iter().filter_map(syntax_text).collect();
    assert_eq!(texts, vec!["[", "**", "**", "](", "https://x", ")"]);
    assert_eq!(p.link_spans.len(), 1);
    let span = &p.link_spans[0];
    assert_eq!(span.start_fragment_index, 0);
    assert_eq!(span.end_fragment_index, 2);
    assert_eq!(span.plain_range, 0..4);
    // "[" + "si" + "**te**" + "](" + "https://x" + ")"
    assert_eq!(span.display_range, 0..21);
    assert_eq!(span.target_display_range, 11..20);
    assert_eq!(p.segments[1].kind, ExpandedInlineSegmentKind::StyledText);
    assert_eq!(p.segments[1].link_group, Some(0));
    // The label fragment the caret does not touch keeps its markers hidden.
    let p1 = build(&fragments, 1..1).unwrap();
    let texts: Vec<_> = p1.projected.iter().filter_map(syntax_text).collect();
    assert_eq!(texts, vec!["[", "](", "https://x", ")"]);
    assert!(p.link_span_for_plain_range(&(0..4)).is_some());
    assert!(p.link_span_for_plain_range(&(0..3)).is_none());
    assert!(p.link_span_fully_covering_range(&(11..20)).is_some());
    // An untouched link shows no syntax.
    assert!(build(&fragments, 5..5).is_none());
}

#[test]
fn heading_prefix_is_editable_target() {
    let p = ExpandedInlineProjection::build_with_prefix(
        &[frag("Title", InlineStyle::plain())],
        9..9,
        None,
        Some("## "),
        None,
    )
    .expect("a prefix always projects");
    assert_eq!(p.block_prefix_range, Some(0..3));
    assert_eq!(p.segments[0].kind, ExpandedInlineSegmentKind::BlockPrefix);
    assert_eq!(p.plain_to_display_cursor, vec![3, 4, 5, 6, 7, 8]);
    assert_eq!(p.display_to_plain.len(), 9);
    assert_eq!(p.delimiter_ranges(), vec![0..3]);
    assert!(ExpandedInlineProjection::build_with_prefix(
        &[frag("Title", InlineStyle::plain())],
        9..9,
        None,
        Some(""),
        None,
    )
    .is_none());
}

#[test]
fn footnote_definition_splits_id_head() {
    let p = ExpandedInlineProjection::build_with_prefix(
        &[frag("ab: text", InlineStyle::plain())],
        9..9,
        None,
        Some("[^"),
        Some(2),
    )
    .unwrap();
    assert_eq!(p.block_prefix_range, None);
    assert_eq!(p.projected.len(), 4);
    assert!(matches!(p.projected[1], ProjectedFragment::SourcePart { fragment_index: 0, start: 0, end: 2 }));
    assert_eq!(syntax_text(&p.projected[2]), Some("]"));
    assert!(matches!(p.projected[3], ProjectedFragment::SourcePart { fragment_index: 0, start: 2, end: 8 }));
    assert_eq!(p.segments[2].kind, ExpandedInlineSegmentKind::BlockPrefix);
    assert_eq!(p.segments[2].display_range, 4..5);
    assert_eq!(p.delimiter_ranges(), vec![0..2, 4..5]);
}

#[test]
fn callout_prefix_colours_brackets_only() {
    let p = ExpandedInlineProjection::build_with_prefix(
        &[frag("x", InlineStyle::plain())],
        9..9,
        None,
        Some("[!NOTE] "),
        None,
    )
    .unwrap();
    assert_eq!(p.delimiter_ranges(), vec![0..2, 6..7]);
}

#[test]
fn caret_navigation_around_delimiters() {
    let p = build(&[frag("bold", bold())], 2..2).unwrap();
    assert_eq!(p.collapsed_affinity_for_display_offset(0), CollapsedCaretAffinity::OuterStart);
    assert_eq!(p.collapsed_affinity_for_display_offset(8), CollapsedCaretAffinity::OuterEnd);
    assert_eq!(p.collapsed_affinity_for_display_offset(4), CollapsedCaretAffinity::Default);
    assert_eq!(p.move_left_target(2), Some((0, CollapsedCaretAffinity::OuterStart)));
    assert_eq!(p.move_left_target(8), Some((6, CollapsedCaretAffinity::Default)));
    assert_eq!(p.move_left_target(4), None);
    assert_eq!(p.move_right_target(0), Some((2, CollapsedCaretAffinity::Default)));
    assert_eq!(p.move_right_target(6), Some((8, CollapsedCaretAffinity::OuterEnd)));
    assert_eq!(p.move_right_target(3), None);
    assert_eq!(p.display_offset_for_plain_cursor(0, CollapsedCaretAffinity::OuterStart), Some(0));
    assert_eq!(p.display_offset_for_plain_cursor(4, CollapsedCaretAffinity::OuterEnd), Some(8));
    assert_eq!(p.display_offset_for_plain_cursor(0, CollapsedCaretAffinity::Default), Some(2));
    assert_eq!(p.display_offset_for_plain_cursor(2, CollapsedCaretAffinity::OuterStart), Some(4));
    assert_eq!(p.display_offset_for_plain_cursor(99, CollapsedCaretAffinity::Default), Some(6));
    assert!(p.caret_closes_span_at_plain(4));
    assert!(!p.caret_closes_span_at_plain(0));
}

#[test]
fn touch_and_overlap_rules() {
    assert!(ExpandedInlineProjection::ranges_overlap(&(0..3), &(2..5)));
    assert!(!ExpandedInlineProjection::ranges_overlap(&(0..2), &(2..5)));
    assert!(ExpandedInlineProjection::fragment_is_touched(2..4, &(4..4), None));
    assert!(!ExpandedInlineProjection::fragment_is_touched(2..4, &(5..5), None));
    assert!(ExpandedInlineProjection::fragment_is_touched(2..4, &(5..5), Some(&(3..6))));
    assert!(!ExpandedInlineProjection::fragment_is_touched(2..4, &(0..2), None));
    assert!(ExpandedInlineProjection::fragment_is_touched(2..4, &(0..3), None));
    assert!(ExpandedInlineKind::Code.applies_to(InlineStyle { code: true, ..InlineStyle::plain() }));
    assert!(!ExpandedInlineKind::Link.applies_to(bold()));
    assert_eq!(ExpandedInlineKind::SubscriptHtml.open_marker(), "<sub>");
    assert_eq!(ExpandedInlineKind::SubscriptHtml.close_marker(), "</sub>");
    assert_eq!(ExpandedInlineKind::BoldMarkdown { marker: '_' }.open_marker(), "__");
    assert_eq!(ExpandedInlineKind::Link.close_marker(), ")");
}

#[test]
fn caret_maps_are_monotone_and_round_trip() {
    let fragments = vec![
        frag("ab", InlineStyle::plain()),
        frag("cd", bold()),
        frag("ef", InlineStyle { italic: true, ..InlineStyle::plain() }),
    ];
    let p = build(&fragments, 3..5).expect("touched fragments project");
    let n = 6;
    assert_eq!(p.plain_to_display_cursor.len(), n + 1);
    assert_eq!(p.display_to_plain[0], 0);
    assert_eq!(*p.display_to_plain.last().unwrap(), n);
    assert!(p.display_to_plain.windows(2).all(|w| w[0] <= w[1]));
    for q in 0..=n {
        assert_eq!(p.display_to_plain[p.plain_to_display_cursor[q]], q, "caret {q}");
    }
}
