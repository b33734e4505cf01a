use splitype_editor::tree_scope::{CalloutKind, ScopeKind, TreeInheritanceScope};

type Scope = TreeInheritanceScope<&'static str, u32>;

#[test]
fn blockquote_starts_quote_groups() {
    let root: Scope = TreeInheritanceScope::root();
    let quote = root.derive_child_scope("q", 1, &ScopeKind::Blockquote);
    assert_eq!(quote.parent_entity, Some("q"));
    assert_eq!(quote.parent_id, Some(1));
    assert_eq!(quote.quote_depth, 1);
    assert_eq!(quote.quote_group_id, Some(1));
    assert_eq!(quote.visible_quote_group_id, Some(1));
    let inner = quote.derive_child_scope("q2", 2, &ScopeKind::Blockquote);
    assert_eq!(inner.quote_depth, 2);
    assert_eq!(inner.quote_group_id, Some(1));
    assert_eq!(inner.visible_quote_group_id, Some(1));
    let para = inner.derive_child_scope("p", 3, &ScopeKind::Other { quote_container: false });
    assert_eq!(para.quote_depth, 2);
    assert_eq!(para.visible_quote_group_id, Some(1));
}

#[test]
fn callout_hides_visible_quote_group() {
    let root: Scope = TreeInheritanceScope::root();
    let callout = root.derive_child_scope("c", 5, &ScopeKind::Callout(CalloutKind::Warning));
    assert_eq!(callout.quote_depth, 1);
    assert_eq!(callout.callout_depth, 1);
    assert_eq!(callout.callout_group_id, Some(5));
    assert_eq!(callout.callout_variant, Some(CalloutKind::Warning));
    assert_eq!(callout.visible_quote_group_id, None);
    let body = callout.derive_child_scope("p", 6, &ScopeKind::Other { quote_container: false });
    assert_eq!(body.visible_quote_group_id, None);
    assert_eq!(body.callout_variant, Some(CalloutKind::Warning));
    let quote_in_callout = callout.derive_child_scope("q", 7, &ScopeKind::Blockquote);
    assert_eq!(quote_in_callout.visible_quote_group_id, Some(7));
    assert_eq!(quote_in_callout.quote_group_id, Some(5));
}

#[test]
fn lists_and_footnotes() {
    let root: Scope = TreeInheritanceScope::root();
    let item = root.derive_child_scope("li", 1, &ScopeKind::ListItem);
    assert_eq!(item.list_depth, 1);
    let nested = item.derive_child_scope("li2", 2, &ScopeKind::ListItem);
    assert_eq!(nested.list_depth, 2);
    let footnote = root.derive_child_scope("fn", 9, &ScopeKind::FootnoteDefinition);
    assert_eq!(footnote.footnote_group_id, Some(9));
    let inside = footnote.derive_child_scope("p", 10, &ScopeKind::Other { quote_container: false });
    assert_eq!(inside.footnote_group_id, Some(9));
    assert_eq!(inside.list_depth, 0);
    assert!(ScopeKind::Blockquote.is_quote_container());
    assert!(!ScopeKind::ListItem.is_quote_container());
    assert_eq!(ScopeKind::Callout(CalloutKind::Tip).callout_kind(), Some(CalloutKind::Tip));
}
