//! The context a block inherits from its ancestors while the document
//! tree is walked top down: list and quote depths, and the ids of the
//! quote, callout and footnote groups it belongs to.

use vstd::prelude::*;

verus! {

/// GitHub-style callout variants.
#[derive(Clone, Copy, Debug, PartialEq, Eq, Structural)]
pub enum CalloutKind {
    Note,
    Tip,
    Important,
    Warning,
    Caution,
}

/// What the scope reads of a block's kind.
#[derive(Clone, Copy, Debug, PartialEq, Eq, Structural)]
pub enum ScopeKind {
    /// A blockquote.
    Blockquote,
    /// A callout of the given variant.
    Callout(CalloutKind),
    /// A list item.
    ListItem,
    /// A footnote definition.
    FootnoteDefinition,
    /// Any other block; `quote_container` tells whether it contains quoted
    /// blocks.
    Other { quote_container: bool },
}

impl ScopeKind {
    /// Whether the block contains quoted blocks.
    pub open spec fn spec_is_quote_container(self) -> bool {
        match self {
            ScopeKind::Blockquote | ScopeKind::Callout(_) => true,
            ScopeKind::Other { quote_container } => quote_container,
            _ => false,
        }
    }

    /// The callout variant of a callout.
    pub open spec fn spec_callout_kind(self) -> Option<CalloutKind> {
        match self {
            ScopeKind::Callout(k) => Some(k),
            _ => None,
        }
    }
}

/// Top-down inherited context during the document tree walk. `E` is the
/// handle of a block, `I` its stable id.
#[derive(Clone, Debug, PartialEq, Eq)]
pub struct TreeInheritanceScope<E, I> {
    pub parent_entity: Option<E>,
    pub parent_id: Option<I>,
    pub list_depth: usize,
    pub quote_depth: usize,
    pub quote_group_id: Option<I>,
    pub visible_quote_group_id: Option<I>,
    pub callout_depth: usize,
    pub callout_group_id: Option<I>,
    pub callout_variant: Option<CalloutKind>,
    pub footnote_group_id: Option<I>,
}

/// The scope of the children of block `block_id` (handle `block_entity`,
/// kind `kind`) under scope `s`: quote containers add a quote level and
/// start a quote group; callouts add a callout level and start a callout
/// group; a blockquote starts a visible quote group, a callout hides it,
/// and it ends where the quote levels are all callouts; footnote
/// definitions start a footnote group; list items add a list level.
pub open spec fn child_scope<E, I>(
    s: TreeInheritanceScope<E, I>,
    block_entity: E,
    block_id: I,
    kind: ScopeKind,
) -> TreeInheritanceScope<E, I> {
    let container = kind.spec_is_quote_container();
    let own = kind.spec_callout_kind();
    let quote_depth = s.quote_depth + if container {
        1int
    } else {
        0int
    };
    let callout_depth = s.callout_depth + if own is Some {
        1int
    } else {
        0int
    };
    let visible_quote_depth = if quote_depth >= callout_depth {
        quote_depth - callout_depth
    } else {
        0
    };
    let visible = match kind {
        ScopeKind::Blockquote => if s.visible_quote_group_id is Some {
            s.visible_quote_group_id
        } else {
            Some(block_id)
        },
        ScopeKind::Callout(_) => None,
        _ => if visible_quote_depth == 0 {
            None
        } else {
            s.visible_quote_group_id
        },
    };
    TreeInheritanceScope {
        parent_entity: Some(block_entity),
        parent_id: Some(block_id),
        list_depth: (s.list_depth + if kind == ScopeKind::ListItem {
            1int
        } else {
            0int
        }) as usize,
        quote_depth: quote_depth as usize,
        quote_group_id: if container && s.quote_group_id is None {
            Some(block_id)
        } else {
            s.quote_group_id
        },
        visible_quote_group_id: if own is Some {
            None
        } else {
            visible
        },
        callout_depth: callout_depth as usize,
        callout_group_id: if own is Some {
            Some(block_id)
        } else {
            s.callout_group_id
        },
        callout_variant: if own is Some {
            own
        } else {
            s.callout_variant
        },
        footnote_group_id: if kind == ScopeKind::FootnoteDefinition {
            Some(block_id)
        } else {
            s.footnote_group_id
        },
    }
}

impl ScopeKind {
    /// Whether the block contains quoted blocks.
    pub fn is_quote_container(&self) -> (b: bool)
        ensures
            b == self.spec_is_quote_container(),
    {
        match self {
            ScopeKind::Blockquote | ScopeKind::Callout(_) => true,
            ScopeKind::Other { quote_container } => *quote_container,
            _ => false,
        }
    }

    /// The callout variant of a callout.
    pub fn callout_kind(&self) -> (k: Option<CalloutKind>)
        ensures
            k == self.spec_callout_kind(),
    {
        match self {
            ScopeKind::Callout(k) => Some(*k),
            _ => None,
        }
    }
}

impl<E, I: Copy> TreeInheritanceScope<E, I> {
    /// The scope of the document's root blocks.
    pub fn root() -> (s: Self)
        ensures
            s.parent_entity is None,
            s.parent_id is None,
            s.list_depth == 0,
            s.quote_depth == 0,
            s.quote_group_id is None,
            s.visible_quote_group_id is None,
            s.callout_depth == 0,
            s.callout_group_id is None,
            s.callout_variant is None,
            s.footnote_group_id is None,
    {
        TreeInheritanceScope {
            parent_entity: None,
            parent_id: None,
            list_depth: 0,
            quote_depth: 0,
            quote_group_id: None,
            visible_quote_group_id: None,
            callout_depth: 0,
            callout_group_id: None,
            callout_variant: None,
            footnote_group_id: None,
        }
    }

    /// The scope of the children of `block_id`.
    pub fn derive_child_scope(&self, block_entity: E, block_id: I, kind: &ScopeKind) -> (child: Self)
        requires
            self.list_depth < usize::MAX,
            self.quote_depth < usize::MAX,
            self.callout_depth < usize::MAX,
        ensures
            child == child_scope(*self, block_entity, block_id, *kind),
    {
        let is_quote_container = kind.is_quote_container();
        let own_callout_variant = kind.callout_kind();
        let quote_depth = self.quote_depth + if is_quote_container {
            1
        } else {
            0
        };
        let quote_group_id = if is_quote_container {
            match self.quote_group_id {
                Some(id) => Some(id),
                None => Some(block_id),
            }
        } else {
            self.quote_group_id
        };
        let callout_depth = self.callout_depth + if own_callout_variant.is_some() {
            1
        } else {
            0
        };
        let callout_group_id = if own_callout_variant.is_some() {
            Some(block_id)
        } else {
            self.callout_group_id
        };
        let callout_variant = match own_callout_variant {
            Some(k) => Some(k),
            None => self.callout_variant,
        };
        let visible_quote_depth = if quote_depth >= callout_depth {
            quote_depth - callout_depth
        } else {
            0
        };
        let visible_quote_group_id = match kind {
            ScopeKind::Blockquote => match self.visible_quote_group_id {
                Some(id) => Some(id),
                None => Some(block_id),
            },
            ScopeKind::Callout(_) => None,
            _ => if visible_quote_depth == 0 {
                None
            } else {
                self.visible_quote_group_id
            },
        };
        let child_visible_quote_group_id = if own_callout_variant.is_some() {
            None
        } else {
            visible_quote_group_id
        };
        let footnote_group_id = if matches!(kind, ScopeKind::FootnoteDefinition) {
            Some(block_id)
        } else {
            self.footnote_group_id
        };
        let child_list_depth = self.list_depth + if matches!(kind, ScopeKind::ListItem) {
            1
        } else {
            0
        };
        TreeInheritanceScope {
            parent_entity: Some(block_entity),
            parent_id: Some(block_id),
            list_depth: child_list_depth,
            quote_depth,
            quote_group_id,
            visible_quote_group_id: child_visible_quote_group_id,
            callout_depth,
            callout_group_id,
            callout_variant,
            footnote_group_id,
        }
    }
}

/// Going down the tree, depths never shrink, a quote group once started
/// is kept, and the callout levels never outnumber the quote levels.
pub proof fn lemma_child_scope_keeps_depths<E, I>(
    s: TreeInheritanceScope<E, I>,
    block_entity: E,
    block_id: I,
    kind: ScopeKind,
)
    requires
        s.callout_depth <= s.quote_depth,
        s.list_depth < usize::MAX,
        s.quote_depth < usize::MAX,
        s.callout_depth < usize::MAX,
    ensures
        ({
            let c = child_scope(s, block_entity, block_id, kind);
            &&& s.list_depth <= c.list_depth
            &&& s.quote_depth <= c.quote_depth
            &&& s.callout_depth <= c.callout_depth
            &&& c.callout_depth <= c.quote_depth
            &&& s.quote_group_id is Some ==> c.quote_group_id == s.quote_group_id
            &&& c.parent_id == Some(block_id)
        }),
{
}

/// Directly inside a callout, no quote group is visible.
pub proof fn lemma_callout_hides_quote_group<E, I>(
    s: TreeInheritanceScope<E, I>,
    block_entity: E,
    block_id: I,
    k: CalloutKind,
)
    ensures
        child_scope(s, block_entity, block_id, ScopeKind::Callout(k)).visible_quote_group_id is None,
        child_scope(s, block_entity, block_id, ScopeKind::Callout(k)).callout_variant == Some(k),
        child_scope(s, block_entity, block_id, ScopeKind::Callout(k)).callout_group_id == Some(block_id),
{
}

} // verus!
