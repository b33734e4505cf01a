//! Tiled area layout: a binary split tree of areas, the preset
//! arrangements, and the layout state machine (split, close, retype,
//! maximize, dropdown and splitter drag).
//!
//! Split ratios are kept in units of one ten-thousandth of the split's
//! extent (`5000` is an even split).

use vstd::prelude::*;

verus! {

/// Available panel area types in the tiled layout.
#[derive(Clone, Copy, Debug, PartialEq, Eq, Structural)]
pub enum AreaType {
    Settings,
    Explorer,
    Outline,
    Source,
    Block,
    Wysiwyg,
}

/// Split orientation between adjacent areas.
#[derive(Clone, Copy, Debug, PartialEq, Eq, Structural)]
pub enum SplitDirection {
    /// Splits left and right.
    Horizontal,
    /// Splits top and bottom.
    Vertical,
}

/// Ratio of an even split.
pub const EVEN_RATIO: u16 = 5000;

/// Smallest ratio a splitter may be dragged to.
pub const MIN_RATIO: u16 = 800;

/// Largest ratio a splitter may be dragged to.
pub const MAX_RATIO: u16 = 9200;

/// Recursive binary layout tree of areas and splitters.
#[derive(Debug)]
pub enum LayoutNode {
    Leaf { id: usize, area_type: AreaType },
    Split {
        id: usize,
        direction: SplitDirection,
        /// Share of the first child, in ten-thousandths.
        ratio: u16,
        first: Box<LayoutNode>,
        second: Box<LayoutNode>,
    },
}

/// The area type given to the new half of a split leaf.
pub open spec fn split_companion(t: AreaType) -> AreaType {
    match t {
        AreaType::Block => AreaType::Source,
        AreaType::Wysiwyg => AreaType::Source,
        AreaType::Source => AreaType::Block,
        AreaType::Explorer => AreaType::Block,
        AreaType::Outline => AreaType::Block,
        AreaType::Settings => AreaType::Block,
    }
}

/// `r` limited to the splitter range `[MIN_RATIO, MAX_RATIO]`.
pub open spec fn clamp_ratio(r: int) -> u16 {
    if r < MIN_RATIO {
        MIN_RATIO
    } else if r > MAX_RATIO {
        MAX_RATIO
    } else {
        r as u16
    }
}

impl Clone for LayoutNode {
    /// A deep copy of the tree.
    fn clone(&self) -> (r: Self)
        ensures
            r == *self,
        decreases self,
    {
        match self {
            LayoutNode::Leaf { id, area_type } => LayoutNode::Leaf { id: *id, area_type: *area_type },
            LayoutNode::Split { id, direction, ratio, first, second } => {
                let f: LayoutNode = (**first).clone();
                let g: LayoutNode = (**second).clone();
                LayoutNode::Split {
                    id: *id,
                    direction: *direction,
                    ratio: *ratio,
                    first: Box::new(f),
                    second: Box::new(g),
                }
            },
        }
    }
}

impl PartialEq for LayoutNode {
    /// Structural equality: same shape, ids, area types, directions and
    /// ratios.
    fn eq(&self, other: &Self) -> (r: bool)
        decreases self,
    {
        match (self, other) {
            (
                LayoutNode::Leaf { id: id1, area_type: t1 },
                LayoutNode::Leaf { id: id2, area_type: t2 },
            ) => *id1 == *id2 && *t1 == *t2,
            (
                LayoutNode::Split { id: id1, direction: d1, ratio: r1, first: f1, second: s1 },
                LayoutNode::Split { id: id2, direction: d2, ratio: r2, first: f2, second: s2 },
            ) => {
                if *id1 == *id2 && *d1 == *d2 && *r1 == *r2 {
                    let a = (**f1).eq(&**f2);
                    if a {
                        (**s1).eq(&**s2)
                    } else {
                        false
                    }
                } else {
                    false
                }
            },
            _ => false,
        }
    }
}

impl vstd::std_specs::cmp::PartialEqSpecImpl for LayoutNode {
    open spec fn obeys_eq_spec() -> bool {
        true
    }

    open spec fn eq_spec(&self, other: &LayoutNode) -> bool {
        *self == *other
    }
}

impl LayoutNode {
    /// The leaves, left to right, as `(id, area type)` pairs.
    pub open spec fn leaves(self) -> Seq<(usize, AreaType)>
        decreases self,
    {
        match self {
            LayoutNode::Leaf { id, area_type } => seq![(id, area_type)],
            LayoutNode::Split { first, second, .. } => first.leaves() + second.leaves(),
        }
    }

    /// The ids of the split nodes, in pre-order.
    pub open spec fn split_ids(self) -> Seq<usize>
        decreases self,
    {
        match self {
            LayoutNode::Leaf { .. } => seq![],
            LayoutNode::Split { id, first, second, .. } => seq![id] + first.split_ids()
                + second.split_ids(),
        }
    }

    /// Whether some leaf has this id.
    pub open spec fn has_leaf(self, leaf_id: usize) -> bool
        decreases self,
    {
        match self {
            LayoutNode::Leaf { id, .. } => id == leaf_id,
            LayoutNode::Split { first, second, .. } => first.has_leaf(leaf_id) || second.has_leaf(
                leaf_id,
            ),
        }
    }

    /// Whether some split node has this id.
    pub open spec fn has_split(self, split_id: usize) -> bool
        decreases self,
    {
        match self {
            LayoutNode::Leaf { .. } => false,
            LayoutNode::Split { id, first, second, .. } => id == split_id || first.has_split(
                split_id,
            ) || second.has_split(split_id),
        }
    }

    /// The area type of the first leaf (left to right) with this id.
    pub open spec fn area_of(self, leaf_id: usize) -> Option<AreaType>
        decreases self,
    {
        match self {
            LayoutNode::Leaf { id, area_type } => if id == leaf_id {
                Some(area_type)
            } else {
                None
            },
            LayoutNode::Split { first, second, .. } => match first.area_of(leaf_id) {
                Some(t) => Some(t),
                None => second.area_of(leaf_id),
            },
        }
    }

    /// The tree with the first leaf carrying `leaf_id` retyped to `t`.
    pub open spec fn with_area(self, leaf_id: usize, t: AreaType) -> LayoutNode
        decreases self,
    {
        match self {
            LayoutNode::Leaf { id, area_type } => if id == leaf_id {
                LayoutNode::Leaf { id, area_type: t }
            } else {
                self
            },
            LayoutNode::Split { id, direction, ratio, first, second } => if first.has_leaf(
                leaf_id,
            ) {
                LayoutNode::Split {
                    id,
                    direction,
                    ratio,
                    first: Box::new(first.with_area(leaf_id, t)),
                    second,
                }
            } else {
                LayoutNode::Split {
                    id,
                    direction,
                    ratio,
                    first,
                    second: Box::new(second.with_area(leaf_id, t)),
                }
            },
        }
    }

    /// The tree with the first leaf carrying `target` replaced by an even
    /// split whose first child is that leaf and whose second child is a new
    /// leaf `new_id` of the companion area type.
    pub open spec fn with_split(
        self,
        target: usize,
        new_id: usize,
        direction: SplitDirection,
    ) -> LayoutNode
        decreases self,
    {
        match self {
            LayoutNode::Leaf { id, area_type } => if id == target {
                LayoutNode::Split {
                    id: new_id,
                    direction,
                    ratio: EVEN_RATIO,
                    first: Box::new(LayoutNode::Leaf { id, area_type }),
                    second: Box::new(
                        LayoutNode::Leaf { id: new_id, area_type: split_companion(area_type) },
                    ),
                }
            } else {
                self
            },
            LayoutNode::Split { id, direction: d, ratio, first, second } => if first.has_leaf(
                target,
            ) {
                LayoutNode::Split {
                    id,
                    direction: d,
                    ratio,
                    first: Box::new(first.with_split(target, new_id, direction)),
                    second,
                }
            } else {
                LayoutNode::Split {
                    id,
                    direction: d,
                    ratio,
                    first,
                    second: Box::new(second.with_split(target, new_id, direction)),
                }
            },
        }
    }

    /// Whether `target` is a leaf that is a direct child of some split.
    pub open spec fn can_remove(self, target: usize) -> bool
        decreases self,
    {
        match self {
            LayoutNode::Leaf { .. } => false,
            LayoutNode::Split { first, second, .. } => is_leaf_with_id(*first, target)
                || is_leaf_with_id(*second, target) || first.can_remove(target)
                || second.can_remove(target),
        }
    }

    /// The tree with leaf `target` removed: its parent split is replaced by
    /// the sibling. A split first checks its own children, then searches its
    /// first subtree, then its second.
    pub open spec fn without_leaf(self, target: usize) -> LayoutNode
        decreases self,
    {
        match self {
            LayoutNode::Leaf { .. } => self,
            LayoutNode::Split { id, direction, ratio, first, second } => if is_leaf_with_id(
                *first,
                target,
            ) {
                *second
            } else if is_leaf_with_id(*second, target) {
                *first
            } else if first.can_remove(target) {
                LayoutNode::Split {
                    id,
                    direction,
                    ratio,
                    first: Box::new(first.without_leaf(target)),
                    second,
                }
            } else {
                LayoutNode::Split {
                    id,
                    direction,
                    ratio,
                    first,
                    second: Box::new(second.without_leaf(target)),
                }
            },
        }
    }

    /// The tree with the ratio of the first split (pre-order) carrying
    /// `split_id` set to `r`.
    pub open spec fn with_ratio(self, split_id: usize, r: u16) -> LayoutNode
        decreases self,
    {
        match self {
            LayoutNode::Leaf { .. } => self,
            LayoutNode::Split { id, direction, ratio, first, second } => if id == split_id {
                LayoutNode::Split { id, direction, ratio: r, first, second }
            } else if first.has_split(split_id) {
                LayoutNode::Split {
                    id,
                    direction,
                    ratio,
                    first: Box::new(first.with_ratio(split_id, r)),
                    second,
                }
            } else {
                LayoutNode::Split {
                    id,
                    direction,
                    ratio,
                    first,
                    second: Box::new(second.with_ratio(split_id, r)),
                }
            },
        }
    }

    /// The tree with the children of the first split (pre-order) carrying
    /// `split_id` exchanged.
    pub open spec fn with_children_swapped(self, split_id: usize) -> LayoutNode
        decreases self,
    {
        match self {
            LayoutNode::Leaf { .. } => self,
            LayoutNode::Split { id, direction, ratio, first, second } => if id == split_id {
                LayoutNode::Split { id, direction, ratio, first: second, second: first }
            } else if first.has_split(split_id) {
                LayoutNode::Split {
                    id,
                    direction,
                    ratio,
                    first: Box::new(first.with_children_swapped(split_id)),
                    second,
                }
            } else {
                LayoutNode::Split {
                    id,
                    direction,
                    ratio,
                    first,
                    second: Box::new(second.with_children_swapped(split_id)),
                }
            },
        }
    }
}

/// Whether `node` is a leaf with id `target`.
pub open spec fn is_leaf_with_id(node: LayoutNode, target: usize) -> bool {
    match node {
        LayoutNode::Leaf { id, .. } => id == target,
        _ => false,
    }
}

impl LayoutNode {
    /// Number of leaves in the tree.
    pub fn count_leaves(&self) -> (n: usize)
        requires
            self.leaves().len() <= usize::MAX,
        ensures
            n == self.leaves().len(),
        decreases self,
    {
        match self {
            LayoutNode::Leaf { .. } => 1,
            LayoutNode::Split { first, second, .. } => {
                let a = first.count_leaves();
                let b = second.count_leaves();
                a + b
            },
        }
    }

    /// The area type of the leaf with this id.
    pub fn find_leaf_area(&self, leaf_id: usize) -> (r: Option<AreaType>)
        ensures
            r == self.area_of(leaf_id),
        decreases self,
    {
        match self {
            LayoutNode::Leaf { id, area_type } => {
                if *id == leaf_id {
                    Some(*area_type)
                } else {
                    None
                }
            },
            LayoutNode::Split { first, second, .. } => {
                match first.find_leaf_area(leaf_id) {
                    Some(t) => Some(t),
                    None => second.find_leaf_area(leaf_id),
                }
            },
        }
    }

    /// Retypes the leaf with this id; returns whether one was found.
    pub fn set_leaf_area(&mut self, leaf_id: usize, new_type: AreaType) -> (found: bool)
        ensures
            found == old(self).has_leaf(leaf_id),
            *final(self) == old(self).with_area(leaf_id, new_type),
        decreases *old(self),
    {
        proof {
            lemma_with_area_absent(*self, leaf_id, new_type);
        }
        match self {
            LayoutNode::Leaf { id, area_type } => {
                if *id == leaf_id {
                    *area_type = new_type;
                    true
                } else {
                    false
                }
            },
            LayoutNode::Split { first, second, .. } => {
                proof {
                    lemma_with_area_absent(**first, leaf_id, new_type);
                    lemma_with_area_absent(**second, leaf_id, new_type);
                }
                first.set_leaf_area(leaf_id, new_type) || second.set_leaf_area(leaf_id, new_type)
            },
        }
    }

    /// Splits the leaf with id `target_id` evenly: the leaf keeps the first
    /// half and a new leaf `new_id` of the companion type takes the second.
    /// Returns whether the leaf was found.
    pub fn split_leaf(&mut self, target_id: usize, new_id: usize, direction: SplitDirection) -> (found: bool)
        ensures
            found == old(self).has_leaf(target_id),
            *final(self) == old(self).with_split(target_id, new_id, direction),
        decreases *old(self),
    {
        proof {
            lemma_with_split_absent(*self, target_id, new_id, direction);
        }
        match self {
            LayoutNode::Leaf { id, area_type } => {
                if *id == target_id {
                    let old_id = *id;
                    let old_type = *area_type;
                    let next_type = companion_area_type(old_type);
                    *self = LayoutNode::Split {
                        id: new_id,
                        direction,
                        ratio: EVEN_RATIO,
                        first: Box::new(LayoutNode::Leaf { id: old_id, area_type: old_type }),
                        second: Box::new(LayoutNode::Leaf { id: new_id, area_type: next_type }),
                    };
                    true
                } else {
                    false
                }
            },
            LayoutNode::Split { first, second, .. } => {
                proof {
                    lemma_with_split_absent(**first, target_id, new_id, direction);
                    lemma_with_split_absent(**second, target_id, new_id, direction);
                }
                first.split_leaf(target_id, new_id, direction) || second.split_leaf(
                    target_id,
                    new_id,
                    direction,
                )
            },
        }
    }

    /// Removes the leaf `target_id`, replacing its parent split by the
    /// sibling. Returns whether a leaf was removed (a lone root leaf is
    /// never removed).
    pub fn remove_leaf(&mut self, target_id: usize) -> (removed: bool)
        ensures
            removed == old(self).can_remove(target_id),
            *final(self) == old(self).without_leaf(target_id),
        decreases *old(self),
    {
        proof {
            lemma_without_leaf_absent(*self, target_id);
        }
        let (first_matches, second_matches) = match &*self {
            LayoutNode::Leaf { .. } => {
                return false;
            },
            LayoutNode::Split { first, second, .. } => (
                leaf_has_id(first, target_id),
                leaf_has_id(second, target_id),
            ),
        };
        if first_matches || second_matches {
            let mut taken = LayoutNode::Leaf { id: 0, area_type: AreaType::Block };
            std::mem::swap(self, &mut taken);
            match taken {
                LayoutNode::Split { first, second, .. } => {
                    if first_matches {
                        *self = *second;
                    } else {
                        *self = *first;
                    }
                },
                LayoutNode::Leaf { .. } => {
                    *self = taken;
                },
            }
            return true;
        }
        match self {
            LayoutNode::Leaf { .. } => false,
            LayoutNode::Split { first, second, .. } => {
                proof {
                    lemma_without_leaf_absent(**first, target_id);
                    lemma_without_leaf_absent(**second, target_id);
                }
                first.remove_leaf(target_id) || second.remove_leaf(target_id)
            },
        }
    }

    /// Sets the ratio of split `split_id` to `new_ratio` limited to the
    /// splitter range. Returns whether the split was found.
    pub fn set_split_ratio(&mut self, split_id: usize, new_ratio: i64) -> (found: bool)
        ensures
            found == old(self).has_split(split_id),
            *final(self) == old(self).with_ratio(split_id, clamp_ratio(new_ratio as int)),
        decreases *old(self),
    {
        proof {
            lemma_with_ratio_absent(*self, split_id, clamp_ratio(new_ratio as int));
        }
        match self {
            LayoutNode::Leaf { .. } => false,
            LayoutNode::Split { id, ratio, first, second, .. } => {
                if *id == split_id {
                    *ratio = clamp_ratio_exec(new_ratio);
                    true
                } else {
                    proof {
                        lemma_with_ratio_absent(**first, split_id, clamp_ratio(new_ratio as int));
                        lemma_with_ratio_absent(**second, split_id, clamp_ratio(new_ratio as int));
                    }
                    first.set_split_ratio(split_id, new_ratio) || second.set_split_ratio(
                        split_id,
                        new_ratio,
                    )
                }
            },
        }
    }

    /// Exchanges the two children of split `split_id`. Returns whether the
    /// split was found.
    pub fn swap_sibling_leaves(&mut self, split_id: usize) -> (found: bool)
        ensures
            found == old(self).has_split(split_id),
            *final(self) == old(self).with_children_swapped(split_id),
        decreases *old(self),
    {
        proof {
            lemma_with_children_swapped_absent(*self, split_id);
        }
        match self {
            LayoutNode::Leaf { .. } => false,
            LayoutNode::Split { id, first, second, .. } => {
                if *id == split_id {
                    std::mem::swap(first, second);
                    true
                } else {
                    proof {
                        lemma_with_children_swapped_absent(**first, split_id);
                        lemma_with_children_swapped_absent(**second, split_id);
                    }
                    first.swap_sibling_leaves(split_id) || second.swap_sibling_leaves(split_id)
                }
            },
        }
    }
}

/// Preset workspace arrangements.
#[derive(Clone, Copy, Debug, PartialEq, Eq, Structural)]
pub enum LayoutPreset {
    DefaultEditor,
    DualView,
    WorkspaceEditor,
    TripleView,
    OutlineView,
}

/// A leaf node.
pub open spec fn leaf(id: usize, t: AreaType) -> LayoutNode {
    LayoutNode::Leaf { id, area_type: t }
}

/// A horizontal split node.
pub open spec fn hsplit(id: usize, ratio: u16, first: LayoutNode, second: LayoutNode) -> LayoutNode {
    LayoutNode::Split {
        id,
        direction: SplitDirection::Horizontal,
        ratio,
        first: Box::new(first),
        second: Box::new(second),
    }
}

/// The layout tree a preset installs.
pub open spec fn preset_root(preset: LayoutPreset) -> LayoutNode {
    match preset {
        LayoutPreset::DefaultEditor => leaf(1, AreaType::Block),
        LayoutPreset::DualView => hsplit(1, 5000, leaf(2, AreaType::Block), leaf(3, AreaType::Source)),
        LayoutPreset::WorkspaceEditor => hsplit(
            1,
            2200,
            leaf(2, AreaType::Explorer),
            leaf(3, AreaType::Block),
        ),
        LayoutPreset::TripleView => hsplit(
            1,
            2000,
            leaf(2, AreaType::Explorer),
            hsplit(3, 5000, leaf(4, AreaType::Block), leaf(5, AreaType::Source)),
        ),
        LayoutPreset::OutlineView => hsplit(
            1,
            2000,
            leaf(2, AreaType::Outline),
            hsplit(3, 7000, leaf(4, AreaType::Block), leaf(5, AreaType::Explorer)),
        ),
    }
}

/// The next free node id after a preset is installed.
pub open spec fn preset_next_id(preset: LayoutPreset) -> usize {
    match preset {
        LayoutPreset::DefaultEditor => 2,
        LayoutPreset::DualView | LayoutPreset::WorkspaceEditor => 4,
        LayoutPreset::TripleView | LayoutPreset::OutlineView => 6,
    }
}

/// The menu label of each preset.
pub open spec fn preset_label(preset: LayoutPreset) -> Seq<char> {
    match preset {
        LayoutPreset::DefaultEditor => "Single Editor"@,
        LayoutPreset::DualView => "Dual (Block | Source)"@,
        LayoutPreset::WorkspaceEditor => "Explorer (Explorer | Block)"@,
        LayoutPreset::TripleView => "Triple (Explorer | Block | Source)"@,
        LayoutPreset::OutlineView => "Outline (Outline | Block | Explorer)"@,
    }
}

/// Active drag of a split bar: the split being resized and its ratio when
/// the drag started.
#[derive(Clone, Copy, Debug, PartialEq, Eq, Structural)]
pub struct SplitterDragSession {
    pub split_id: usize,
    pub direction: SplitDirection,
    pub start_ratio: u16,
}

/// Active corner gesture on a leaf (corner drag to split the area).
#[derive(Clone, Copy, Debug, PartialEq, Eq, Structural)]
pub struct CornerDragSession {
    pub leaf_id: usize,
}

/// Context menu opened on the divider bar of a split.
#[derive(Clone, Copy, Debug, PartialEq, Eq, Structural)]
pub struct BorderMenuState {
    pub split_id: usize,
    pub direction: SplitDirection,
}

/// Full state of the tiled area layout manager.
#[derive(Debug)]
pub struct AreaLayoutState {
    pub root: LayoutNode,
    pub next_id: usize,
    pub active_dropdown_leaf: Option<usize>,
    pub maximized_leaf: Option<usize>,
    pub active_splitter_drag: Option<SplitterDragSession>,
    pub active_corner_drag: Option<CornerDragSession>,
    pub active_border_menu: Option<BorderMenuState>,
}

impl Clone for AreaLayoutState {
    fn clone(&self) -> (r: Self)
        ensures
            r == *self,
    {
        AreaLayoutState {
            root: self.root.clone(),
            next_id: self.next_id,
            active_dropdown_leaf: self.active_dropdown_leaf,
            maximized_leaf: self.maximized_leaf,
            active_splitter_drag: self.active_splitter_drag,
            active_corner_drag: self.active_corner_drag,
            active_border_menu: self.active_border_menu,
        }
    }
}

impl PartialEq for AreaLayoutState {
    fn eq(&self, other: &Self) -> (r: bool) {
        self.root.eq(&other.root) && self.next_id == other.next_id
            && opt_usize_eq(self.active_dropdown_leaf, other.active_dropdown_leaf)
            && opt_usize_eq(self.maximized_leaf, other.maximized_leaf) && match (
            self.active_splitter_drag,
            other.active_splitter_drag,
        ) {
            (None, None) => true,
            (Some(a), Some(b)) => a.split_id == b.split_id && a.direction == b.direction
                && a.start_ratio == b.start_ratio,
            _ => false,
        } && match (self.active_corner_drag, other.active_corner_drag) {
            (None, None) => true,
            (Some(a), Some(b)) => a.leaf_id == b.leaf_id,
            _ => false,
        } && match (self.active_border_menu, other.active_border_menu) {
            (None, None) => true,
            (Some(a), Some(b)) => a.split_id == b.split_id && a.direction == b.direction,
            _ => false,
        }
    }
}

impl vstd::std_specs::cmp::PartialEqSpecImpl for AreaLayoutState {
    open spec fn obeys_eq_spec() -> bool {
        true
    }

    open spec fn eq_spec(&self, other: &AreaLayoutState) -> bool {
        *self == *other
    }
}

fn opt_usize_eq(a: Option<usize>, b: Option<usize>) -> (r: bool)
    ensures
        r == (a == b),
{
    match (a, b) {
        (None, None) => true,
        (Some(x), Some(y)) => x == y,
        _ => false,
    }
}

/// Every node id of the tree is below `bound`.
pub open spec fn ids_below(node: LayoutNode, bound: usize) -> bool {
    &&& forall|i: int| 0 <= i < node.leaves().len() ==> #[trigger] node.leaves()[i].0 < bound
    &&& forall|i: int| 0 <= i < node.split_ids().len() ==> #[trigger] node.split_ids()[i] < bound
}

impl AreaLayoutState {
    /// Every node id is below `next_id`, so the id handed to the next split
    /// is fresh.
    pub open spec fn wf(&self) -> bool {
        ids_below(self.root, self.next_id)
    }

    /// A single Block area.
    pub fn new() -> (s: Self)
        ensures
            s.wf(),
            s.root == leaf(1, AreaType::Block),
            s.next_id == 2,
            s.active_dropdown_leaf.is_none(),
            s.maximized_leaf.is_none(),
            s.active_splitter_drag.is_none(),
            s.active_corner_drag.is_none(),
            s.active_border_menu.is_none(),
    {
        AreaLayoutState {
            root: LayoutNode::Leaf { id: 1, area_type: AreaType::Block },
            next_id: 2,
            active_dropdown_leaf: None,
            maximized_leaf: None,
            active_splitter_drag: None,
            active_corner_drag: None,
            active_border_menu: None,
        }
    }

    /// Installs a preset arrangement; clears maximize, dropdown and border
    /// menu.
    pub fn apply_preset(&mut self, preset: LayoutPreset)
        ensures
            final(self).wf(),
            final(self).root == preset_root(preset),
            final(self).next_id == preset_next_id(preset),
            final(self).maximized_leaf.is_none(),
            final(self).active_dropdown_leaf.is_none(),
            final(self).active_border_menu.is_none(),
            final(self).active_splitter_drag == old(self).active_splitter_drag,
            final(self).active_corner_drag == old(self).active_corner_drag,
    {
        self.maximized_leaf = None;
        self.active_dropdown_leaf = None;
        self.active_border_menu = None;
        match preset {
            LayoutPreset::DefaultEditor => {
                self.root = LayoutNode::Leaf { id: 1, area_type: AreaType::Block };
                self.next_id = 2;
            },
            LayoutPreset::DualView => {
                self.root = LayoutNode::Split {
                    id: 1,
                    direction: SplitDirection::Horizontal,
                    ratio: 5000,
                    first: Box::new(LayoutNode::Leaf { id: 2, area_type: AreaType::Block }),
                    second: Box::new(LayoutNode::Leaf { id: 3, area_type: AreaType::Source }),
                };
                self.next_id = 4;
            },
            LayoutPreset::WorkspaceEditor => {
                self.root = LayoutNode::Split {
                    id: 1,
                    direction: SplitDirection::Horizontal,
                    ratio: 2200,
                    first: Box::new(LayoutNode::Leaf { id: 2, area_type: AreaType::Explorer }),
                    second: Box::new(LayoutNode::Leaf { id: 3, area_type: AreaType::Block }),
                };
                self.next_id = 4;
            },
            LayoutPreset::TripleView => {
                self.root = LayoutNode::Split {
                    id: 1,
                    direction: SplitDirection::Horizontal,
                    ratio: 2000,
                    first: Box::new(LayoutNode::Leaf { id: 2, area_type: AreaType::Explorer }),
                    second: Box::new(
                        LayoutNode::Split {
                            id: 3,
                            direction: SplitDirection::Horizontal,
                            ratio: 5000,
                            first: Box::new(LayoutNode::Leaf { id: 4, area_type: AreaType::Block }),
                            second: Box::new(
                                LayoutNode::Leaf { id: 5, area_type: AreaType::Source },
                            ),
                        },
                    ),
                };
                self.next_id = 6;
            },
            LayoutPreset::OutlineView => {
                self.root = LayoutNode::Split {
                    id: 1,
                    direction: SplitDirection::Horizontal,
                    ratio: 2000,
                    first: Box::new(LayoutNode::Leaf { id: 2, area_type: AreaType::Outline }),
                    second: Box::new(
                        LayoutNode::Split {
                            id: 3,
                            direction: SplitDirection::Horizontal,
                            ratio: 7000,
                            first: Box::new(LayoutNode::Leaf { id: 4, area_type: AreaType::Block }),
                            second: Box::new(
                                LayoutNode::Leaf { id: 5, area_type: AreaType::Explorer },
                            ),
                        },
                    ),
                };
                self.next_id = 6;
            },
        }
        proof {
            let r = self.root;
            reveal_with_fuel(LayoutNode::leaves, 3);
            reveal_with_fuel(LayoutNode::split_ids, 3);
            assert(ids_below(r, self.next_id));
        }
    }

    /// Splits leaf `target_leaf_id`, giving the new leaf the next free id;
    /// clears the dropdown and border menu.
    pub fn split_area(&mut self, target_leaf_id: usize, direction: SplitDirection)
        requires
            old(self).next_id < usize::MAX,
        ensures
            old(self).wf() ==> final(self).wf(),
            final(self).next_id == old(self).next_id + 1,
            final(self).root == old(self).root.with_split(
                target_leaf_id,
                old(self).next_id,
                direction,
            ),
            final(self).active_dropdown_leaf.is_none(),
            final(self).active_border_menu.is_none(),
            final(self).maximized_leaf == old(self).maximized_leaf,
            final(self).active_splitter_drag == old(self).active_splitter_drag,
            final(self).active_corner_drag == old(self).active_corner_drag,
    {
        let ghost was_wf = self.wf();
        let new_id = self.next_id;
        self.next_id = self.next_id + 1;
        proof {
            if was_wf {
                lemma_ids_below_mono(self.root, new_id, self.next_id);
                lemma_with_split_ids_below(self.root, target_leaf_id, new_id, direction, self.next_id);
            }
        }
        self.root.split_leaf(target_leaf_id, new_id, direction);
        self.active_dropdown_leaf = None;
        self.active_border_menu = None;
    }

    /// Closes leaf `target_leaf_id` unless it is the only area; a closed
    /// maximized leaf is no longer maximized. Clears the dropdown and border
    /// menu.
    pub fn close_area(&mut self, target_leaf_id: usize)
        requires
            old(self).root.leaves().len() <= usize::MAX,
        ensures
            old(self).wf() ==> final(self).wf(),
            final(self).next_id == old(self).next_id,
            old(self).root.leaves().len() > 1 ==> {
                &&& final(self).root == old(self).root.without_leaf(target_leaf_id)
                &&& final(self).maximized_leaf == if old(self).maximized_leaf == Some(
                    target_leaf_id,
                ) {
                    None
                } else {
                    old(self).maximized_leaf
                }
            },
            old(self).root.leaves().len() <= 1 ==> final(self).root == old(self).root
                && final(self).maximized_leaf == old(self).maximized_leaf,
            final(self).active_dropdown_leaf.is_none(),
            final(self).active_border_menu.is_none(),
            final(self).active_splitter_drag == old(self).active_splitter_drag,
            final(self).active_corner_drag == old(self).active_corner_drag,
    {
        if self.root.count_leaves() > 1 {
            proof {
                if self.wf() {
                    lemma_without_leaf_ids_below(self.root, target_leaf_id, self.next_id);
                }
            }
            self.root.remove_leaf(target_leaf_id);
            if self.maximized_leaf == Some(target_leaf_id) {
                self.maximized_leaf = None;
            }
        }
        self.active_dropdown_leaf = None;
        self.active_border_menu = None;
    }

    /// Retypes leaf `leaf_id` and closes the dropdown.
    pub fn change_area_type(&mut self, leaf_id: usize, new_type: AreaType)
        ensures
            old(self).wf() ==> final(self).wf(),
            final(self).root == old(self).root.with_area(leaf_id, new_type),
            final(self).next_id == old(self).next_id,
            final(self).active_dropdown_leaf.is_none(),
            final(self).maximized_leaf == old(self).maximized_leaf,
            final(self).active_border_menu == old(self).active_border_menu,
            final(self).active_splitter_drag == old(self).active_splitter_drag,
            final(self).active_corner_drag == old(self).active_corner_drag,
    {
        proof {
            lemma_with_area_ids(self.root, leaf_id, new_type);
        }
        self.root.set_leaf_area(leaf_id, new_type);
        self.active_dropdown_leaf = None;
    }

    /// Maximizes `leaf_id`, or restores it when it is already maximized.
    pub fn toggle_maximize(&mut self, leaf_id: usize)
        ensures
            final(self).maximized_leaf == toggled(old(self).maximized_leaf, leaf_id),
            final(self).root == old(self).root,
            final(self).next_id == old(self).next_id,
            final(self).active_dropdown_leaf == old(self).active_dropdown_leaf,
            final(self).active_border_menu == old(self).active_border_menu,
            final(self).active_splitter_drag == old(self).active_splitter_drag,
            final(self).active_corner_drag == old(self).active_corner_drag,
    {
        if self.maximized_leaf == Some(leaf_id) {
            self.maximized_leaf = None;
        } else {
            self.maximized_leaf = Some(leaf_id);
        }
    }

    /// Opens the area-type dropdown of `leaf_id`, or closes it when it is
    /// already open.
    pub fn toggle_dropdown(&mut self, leaf_id: usize)
        ensures
            final(self).active_dropdown_leaf == toggled(old(self).active_dropdown_leaf, leaf_id),
            final(self).root == old(self).root,
            final(self).next_id == old(self).next_id,
            final(self).maximized_leaf == old(self).maximized_leaf,
            final(self).active_border_menu == old(self).active_border_menu,
            final(self).active_splitter_drag == old(self).active_splitter_drag,
            final(self).active_corner_drag == old(self).active_corner_drag,
    {
        if self.active_dropdown_leaf == Some(leaf_id) {
            self.active_dropdown_leaf = None;
        } else {
            self.active_dropdown_leaf = Some(leaf_id);
        }
    }

    /// Moves the dragged splitter: its ratio becomes the ratio at drag start
    /// plus `ratio_delta` (ten-thousandths), limited to the splitter range.
    /// Without an active drag nothing changes.
    pub fn update_splitter_drag(&mut self, ratio_delta: i32)
        ensures
            old(self).wf() ==> final(self).wf(),
            final(self).root == match old(self).active_splitter_drag {
                Some(session) => old(self).root.with_ratio(
                    session.split_id,
                    clamp_ratio(session.start_ratio + ratio_delta),
                ),
                None => old(self).root,
            },
            final(self).next_id == old(self).next_id,
            final(self).active_dropdown_leaf == old(self).active_dropdown_leaf,
            final(self).maximized_leaf == old(self).maximized_leaf,
            final(self).active_border_menu == old(self).active_border_menu,
            final(self).active_splitter_drag == old(self).active_splitter_drag,
            final(self).active_corner_drag == old(self).active_corner_drag,
    {
        if let Some(session) = self.active_splitter_drag {
            let new_ratio = session.start_ratio as i64 + ratio_delta as i64;
            proof {
                lemma_with_ratio_ids(self.root, session.split_id, clamp_ratio(new_ratio as int));
            }
            self.root.set_split_ratio(session.split_id, new_ratio);
        }
    }

    /// Ends the splitter drag.
    pub fn end_splitter_drag(&mut self)
        ensures
            final(self).active_splitter_drag.is_none(),
            final(self).root == old(self).root,
            final(self).next_id == old(self).next_id,
            final(self).active_dropdown_leaf == old(self).active_dropdown_leaf,
            final(self).maximized_leaf == old(self).maximized_leaf,
            final(self).active_border_menu == old(self).active_border_menu,
            final(self).active_corner_drag == old(self).active_corner_drag,
    {
        self.active_splitter_drag = None;
    }

    /// Exchanges the children of split `split_id` and closes the border
    /// menu.
    pub fn swap_split_children(&mut self, split_id: usize)
        ensures
            old(self).wf() ==> final(self).wf(),
            final(self).root == old(self).root.with_children_swapped(split_id),
            final(self).active_border_menu.is_none(),
            final(self).next_id == old(self).next_id,
            final(self).active_dropdown_leaf == old(self).active_dropdown_leaf,
            final(self).maximized_leaf == old(self).maximized_leaf,
            final(self).active_splitter_drag == old(self).active_splitter_drag,
            final(self).active_corner_drag == old(self).active_corner_drag,
    {
        proof {
            lemma_swapped_ids(self.root, split_id);
        }
        self.root.swap_sibling_leaves(split_id);
        self.active_border_menu = None;
    }
}

/// `current` with `id` toggled: `None` when it was `Some(id)`, else `Some(id)`.
pub open spec fn toggled(current: Option<usize>, id: usize) -> Option<usize> {
    if current == Some(id) {
        None
    } else {
        Some(id)
    }
}

/// `ids_below` of a split is its own id and both children below the bound.
pub proof fn lemma_ids_below_split(node: LayoutNode, bound: usize)
    requires
        node is Split,
    ensures
        ids_below(node, bound) <==> (node->Split_id < bound && ids_below(*node->first, bound)
            && ids_below(*node->second, bound)),
{
    match node {
        LayoutNode::Split { id, first, second, .. } => {
            let l1 = first.leaves();
            let l2 = second.leaves();
            let s1 = first.split_ids();
            let s2 = second.split_ids();
            assert(node.leaves() == l1 + l2);
            assert(node.split_ids() == seq![id] + s1 + s2);
            if ids_below(node, bound) {
                assert forall|i: int| 0 <= i < l1.len() implies #[trigger] l1[i].0 < bound by {
                    assert(node.leaves()[i] == l1[i]);
                }
                assert forall|i: int| 0 <= i < l2.len() implies #[trigger] l2[i].0 < bound by {
                    assert(node.leaves()[l1.len() + i] == l2[i]);
                }
                assert forall|i: int| 0 <= i < s1.len() implies #[trigger] s1[i] < bound by {
                    assert(node.split_ids()[1 + i] == s1[i]);
                }
                assert forall|i: int| 0 <= i < s2.len() implies #[trigger] s2[i] < bound by {
                    assert(node.split_ids()[1 + s1.len() + i] == s2[i]);
                }
                assert(node.split_ids()[0] == id);
            }
            if id < bound && ids_below(*first, bound) && ids_below(*second, bound) {
                assert forall|i: int| 0 <= i < node.leaves().len() implies #[trigger] node.leaves()[i].0
                    < bound by {
                    if i < l1.len() {
                        assert(node.leaves()[i] == l1[i]);
                    } else {
                        assert(node.leaves()[i] == l2[i - l1.len()]);
                    }
                }
                assert forall|i: int| 0 <= i < node.split_ids().len() implies #[trigger] node.split_ids()[i]
                    < bound by {
                    if i == 0 {
                    } else if i < 1 + s1.len() {
                        assert(node.split_ids()[i] == s1[i - 1]);
                    } else {
                        assert(node.split_ids()[i] == s2[i - 1 - s1.len()]);
                    }
                }
            }
        },
        _ => {},
    }
}

/// A larger bound still bounds every id.
pub proof fn lemma_ids_below_mono(node: LayoutNode, b1: usize, b2: usize)
    requires
        ids_below(node, b1),
        b1 <= b2,
    ensures
        ids_below(node, b2),
{
    assert forall|i: int| 0 <= i < node.leaves().len() implies #[trigger] node.leaves()[i].0
        < b2 by {}
    assert forall|i: int| 0 <= i < node.split_ids().len() implies #[trigger] node.split_ids()[i]
        < b2 by {}
}

/// Splitting with an id below the bound keeps every id below it.
pub proof fn lemma_with_split_ids_below(
    node: LayoutNode,
    target: usize,
    new_id: usize,
    direction: SplitDirection,
    bound: usize,
)
    requires
        ids_below(node, bound),
        new_id < bound,
    ensures
        ids_below(node.with_split(target, new_id, direction), bound),
    decreases node,
{
    match node {
        LayoutNode::Leaf { id, area_type } => {
            if id == target {
                let r = node.with_split(target, new_id, direction);
                assert(node.leaves()[0].0 == id);
                reveal_with_fuel(LayoutNode::leaves, 2);
                reveal_with_fuel(LayoutNode::split_ids, 2);
                assert(r.leaves() =~= seq![(id, area_type), (new_id, split_companion(area_type))]);
                assert(r.split_ids() =~= seq![new_id]);
            }
        },
        LayoutNode::Split { first, second, .. } => {
            lemma_ids_below_split(node, bound);
            lemma_with_split_ids_below(*first, target, new_id, direction, bound);
            lemma_with_split_ids_below(*second, target, new_id, direction, bound);
            lemma_ids_below_split(node.with_split(target, new_id, direction), bound);
        },
    }
}

/// Removing a leaf keeps every remaining id below the bound.
pub proof fn lemma_without_leaf_ids_below(node: LayoutNode, target: usize, bound: usize)
    requires
        ids_below(node, bound),
    ensures
        ids_below(node.without_leaf(target), bound),
    decreases node,
{
    match node {
        LayoutNode::Leaf { .. } => {},
        LayoutNode::Split { first, second, .. } => {
            lemma_ids_below_split(node, bound);
            lemma_without_leaf_ids_below(*first, target, bound);
            lemma_without_leaf_ids_below(*second, target, bound);
            let r = node.without_leaf(target);
            if r is Split {
                lemma_ids_below_split(r, bound);
            }
        },
    }
}

/// Retyping a leaf keeps the leaf ids and the split ids.
pub proof fn lemma_with_area_ids(node: LayoutNode, leaf_id: usize, t: AreaType)
    ensures
        node.with_area(leaf_id, t).split_ids() == node.split_ids(),
        node.with_area(leaf_id, t).leaves().len() == node.leaves().len(),
        forall|i: int|
            0 <= i < node.leaves().len() ==> #[trigger] node.with_area(leaf_id, t).leaves()[i].0
                == node.leaves()[i].0,
    decreases node,
{
    match node {
        LayoutNode::Leaf { .. } => {},
        LayoutNode::Split { first, second, .. } => {
            lemma_with_area_ids(*first, leaf_id, t);
            lemma_with_area_ids(*second, leaf_id, t);
            let r = node.with_area(leaf_id, t);
            let l1 = first.leaves();
            assert forall|i: int| 0 <= i < node.leaves().len() implies #[trigger] r.leaves()[i].0
                == node.leaves()[i].0 by {
                if i < l1.len() {
                } else {
                }
            }
        },
    }
}

/// Setting a ratio keeps the leaves and the split ids.
pub proof fn lemma_with_ratio_ids(node: LayoutNode, split_id: usize, r: u16)
    ensures
        node.with_ratio(split_id, r).split_ids() == node.split_ids(),
        node.with_ratio(split_id, r).leaves() == node.leaves(),
    decreases node,
{
    match node {
        LayoutNode::Leaf { .. } => {},
        LayoutNode::Split { first, second, .. } => {
            lemma_with_ratio_ids(*first, split_id, r);
            lemma_with_ratio_ids(*second, split_id, r);
        },
    }
}

/// Swapping children keeps every id below the same bounds.
pub proof fn lemma_swapped_ids(node: LayoutNode, split_id: usize)
    ensures
        forall|b: usize| ids_below(node, b) ==> ids_below(#[trigger] node.with_children_swapped(split_id), b),
    decreases node,
{
    match node {
        LayoutNode::Leaf { .. } => {},
        LayoutNode::Split { first, second, .. } => {
            lemma_swapped_ids(*first, split_id);
            lemma_swapped_ids(*second, split_id);
            assert forall|b: usize| ids_below(node, b) implies ids_below(
                #[trigger] node.with_children_swapped(split_id),
                b,
            ) by {
                lemma_ids_below_split(node, b);
                lemma_ids_below_split(node.with_children_swapped(split_id), b);
            }
        },
    }
}

/// The label of each area type.
pub open spec fn area_type_label(t: AreaType) -> Seq<char> {
    match t {
        AreaType::Settings => "Settings"@,
        AreaType::Explorer => "Explorer"@,
        AreaType::Outline => "Outline"@,
        AreaType::Source => "Source"@,
        AreaType::Block => "Block"@,
        AreaType::Wysiwyg => "WYSIWYG"@,
    }
}

/// The one-line description of each area type.
pub open spec fn area_type_description(t: AreaType) -> Seq<char> {
    match t {
        AreaType::Settings => "Application settings & document info"@,
        AreaType::Explorer => "Workspace file directory tree"@,
        AreaType::Outline => "Document section headings outline"@,
        AreaType::Source => "Raw Markdown text editor"@,
        AreaType::Block => "Visual block editor (Rendered)"@,
        AreaType::Wysiwyg => "WYSIWYG visual editor (Rendered)"@,
    }
}

/// The area types in the order the area-type dropdown lists them.
pub open spec fn area_type_menu_order() -> Seq<AreaType> {
    seq![
        AreaType::Block,
        AreaType::Wysiwyg,
        AreaType::Source,
        AreaType::Explorer,
        AreaType::Outline,
        AreaType::Settings,
    ]
}

/// The presets in menu order.
pub open spec fn preset_menu_order() -> Seq<LayoutPreset> {
    seq![
        LayoutPreset::DefaultEditor,
        LayoutPreset::DualView,
        LayoutPreset::WorkspaceEditor,
        LayoutPreset::TripleView,
        LayoutPreset::OutlineView,
    ]
}

impl AreaType {
    pub fn name(&self) -> (r: &'static str)
        ensures
            r@ == area_type_label(*self),
    {
        match self {
            Self::Settings => {
                proof {
                    reveal_strlit("Settings");
                }
                "Settings"
            },
            Self::Explorer => {
                proof {
                    reveal_strlit("Explorer");
                }
                "Explorer"
            },
            Self::Outline => {
                proof {
                    reveal_strlit("Outline");
                }
                "Outline"
            },
            Self::Source => {
                proof {
                    reveal_strlit("Source");
                }
                "Source"
            },
            Self::Block => {
                proof {
                    reveal_strlit("Block");
                }
                "Block"
            },
            Self::Wysiwyg => {
                proof {
                    reveal_strlit("WYSIWYG");
                }
                "WYSIWYG"
            },
        }
    }

    pub fn description(&self) -> (r: &'static str)
        ensures
            r@ == area_type_description(*self),
    {
        match self {
            Self::Settings => {
                proof {
                    reveal_strlit("Application settings & document info");
                }
                "Application settings & document info"
            },
            Self::Explorer => {
                proof {
                    reveal_strlit("Workspace file directory tree");
                }
                "Workspace file directory tree"
            },
            Self::Outline => {
                proof {
                    reveal_strlit("Document section headings outline");
                }
                "Document section headings outline"
            },
            Self::Source => {
                proof {
                    reveal_strlit("Raw Markdown text editor");
                }
                "Raw Markdown text editor"
            },
            Self::Block => {
                proof {
                    reveal_strlit("Visual block editor (Rendered)");
                }
                "Visual block editor (Rendered)"
            },
            Self::Wysiwyg => {
                proof {
                    reveal_strlit("WYSIWYG visual editor (Rendered)");
                }
                "WYSIWYG visual editor (Rendered)"
            },
        }
    }

    /// All area types, in dropdown order.
    pub fn all() -> (r: &'static [AreaType])
        ensures
            r@ == area_type_menu_order(),
    {
        let r: &'static [AreaType] = &[
            Self::Block,
            Self::Wysiwyg,
            Self::Source,
            Self::Explorer,
            Self::Outline,
            Self::Settings,
        ];
        assert(r@ =~= area_type_menu_order());
        r
    }
}

impl LayoutPreset {
    pub fn name(&self) -> (r: &'static str)
        ensures
            r@ == preset_label(*self),
    {
        match self {
            Self::DefaultEditor => {
                proof {
                    reveal_strlit("Single Editor");
                }
                "Single Editor"
            },
            Self::DualView => {
                proof {
                    reveal_strlit("Dual (Block | Source)");
                }
                "Dual (Block | Source)"
            },
            Self::WorkspaceEditor => {
                proof {
                    reveal_strlit("Explorer (Explorer | Block)");
                }
                "Explorer (Explorer | Block)"
            },
            Self::TripleView => {
                proof {
                    reveal_strlit("Triple (Explorer | Block | Source)");
                }
                "Triple (Explorer | Block | Source)"
            },
            Self::OutlineView => {
                proof {
                    reveal_strlit("Outline (Outline | Block | Explorer)");
                }
                "Outline (Outline | Block | Explorer)"
            },
        }
    }

    /// All presets, in menu order.
    pub fn all() -> (r: &'static [LayoutPreset])
        ensures
            r@ == preset_menu_order(),
    {
        let r: &'static [LayoutPreset] = &[
            Self::DefaultEditor,
            Self::DualView,
            Self::WorkspaceEditor,
            Self::TripleView,
            Self::OutlineView,
        ];
        assert(r@ =~= preset_menu_order());
        r
    }
}

impl Default for AreaLayoutState {
    /// A single Block area.
    fn default() -> (s: Self)
        ensures
            s.wf(),
            s.root == leaf(1, AreaType::Block),
            s.next_id == 2,
            s.active_dropdown_leaf.is_none(),
            s.maximized_leaf.is_none(),
            s.active_splitter_drag.is_none(),
            s.active_corner_drag.is_none(),
            s.active_border_menu.is_none(),
    {
        AreaLayoutState::new()
    }
}

/// A layout tree always has at least one leaf.
pub proof fn lemma_leaves_nonempty(node: LayoutNode)
    ensures
        node.leaves().len() >= 1,
    decreases node,
{
    match node {
        LayoutNode::Leaf { .. } => {},
        LayoutNode::Split { first, second, .. } => {
            lemma_leaves_nonempty(*first);
            lemma_leaves_nonempty(*second);
        },
    }
}

/// Splitting an existing leaf adds exactly one leaf, the new one.
pub proof fn lemma_split_adds_one_leaf(
    node: LayoutNode,
    target: usize,
    new_id: usize,
    direction: SplitDirection,
)
    requires
        node.has_leaf(target),
    ensures
        node.with_split(target, new_id, direction).leaves().len() == node.leaves().len() + 1,
        node.with_split(target, new_id, direction).has_leaf(new_id),
        node.with_split(target, new_id, direction).has_leaf(target),
    decreases node,
{
    match node {
        LayoutNode::Leaf { .. } => {
            reveal_with_fuel(LayoutNode::leaves, 2);
            reveal_with_fuel(LayoutNode::has_leaf, 2);
        },
        LayoutNode::Split { first, second, .. } => {
            if first.has_leaf(target) {
                lemma_split_adds_one_leaf(*first, target, new_id, direction);
            } else {
                lemma_split_adds_one_leaf(*second, target, new_id, direction);
            }
        },
    }
}

/// In a tree with more than one area, every leaf can be removed.
pub proof fn lemma_split_tree_leaves_removable(node: LayoutNode, target: usize)
    requires
        node is Split,
        node.has_leaf(target),
    ensures
        node.can_remove(target),
    decreases node,
{
    match node {
        LayoutNode::Split { first, second, .. } => {
            if first.has_leaf(target) {
                if *first is Split {
                    lemma_split_tree_leaves_removable(*first, target);
                }
            } else {
                if *second is Split {
                    lemma_split_tree_leaves_removable(*second, target);
                }
            }
        },
        _ => {},
    }
}

/// Removing a leaf takes exactly one leaf away.
pub proof fn lemma_remove_drops_one_leaf(node: LayoutNode, target: usize)
    requires
        node.can_remove(target),
    ensures
        node.without_leaf(target).leaves().len() + 1 == node.leaves().len(),
    decreases node,
{
    match node {
        LayoutNode::Split { id, direction, ratio, first, second } => {
            assert(node.leaves() == first.leaves() + second.leaves());
            if is_leaf_with_id(*first, target) {
                assert(first.leaves().len() == 1);
            } else if is_leaf_with_id(*second, target) {
                assert(second.leaves().len() == 1);
            } else if first.can_remove(target) {
                lemma_remove_drops_one_leaf(*first, target);
                let f2 = first.without_leaf(target);
                assert(node.without_leaf(target) == LayoutNode::Split {
                    id,
                    direction,
                    ratio,
                    first: Box::new(f2),
                    second,
                });
                assert(node.without_leaf(target).leaves() == f2.leaves() + second.leaves());
            } else {
                lemma_remove_drops_one_leaf(*second, target);
                let s2 = second.without_leaf(target);
                assert(node.without_leaf(target).leaves() == first.leaves() + s2.leaves());
            }
        },
        _ => {},
    }
}

/// A node without leaf `x` is not the leaf `x`.
pub proof fn lemma_absent_not_leaf(node: LayoutNode, x: usize)
    requires
        !node.has_leaf(x),
    ensures
        !is_leaf_with_id(node, x),
{
    match node {
        LayoutNode::Leaf { .. } => {},
        _ => {},
    }
}

/// Splitting an existing leaf yields a split node.
pub proof fn lemma_split_is_split(
    node: LayoutNode,
    target: usize,
    new_id: usize,
    direction: SplitDirection,
)
    requires
        node.has_leaf(target),
    ensures
        node.with_split(target, new_id, direction) is Split,
{
}

/// A leaf id that is not in the tree cannot be removed from it.
pub proof fn lemma_absent_not_removable(node: LayoutNode, target: usize)
    requires
        !node.has_leaf(target),
    ensures
        !node.can_remove(target),
    decreases node,
{
    match node {
        LayoutNode::Split { first, second, .. } => {
            lemma_absent_not_removable(*first, target);
            lemma_absent_not_removable(*second, target);
            lemma_absent_not_leaf(*first, target);
            lemma_absent_not_leaf(*second, target);
        },
        _ => {},
    }
}

/// Splitting a leaf with a fresh id and then closing the new leaf restores
/// the layout.
pub proof fn lemma_split_then_close_restores(
    node: LayoutNode,
    target: usize,
    new_id: usize,
    direction: SplitDirection,
)
    requires
        !node.has_leaf(new_id),
    ensures
        node.with_split(target, new_id, direction).without_leaf(new_id) == node,
        node.has_leaf(target) <==> node.with_split(target, new_id, direction).can_remove(new_id),
    decreases node,
{
    match node {
        LayoutNode::Leaf { id, area_type } => {
            if id == target {
                let r = node.with_split(target, new_id, direction);
                assert(r == LayoutNode::Split {
                    id: new_id,
                    direction,
                    ratio: EVEN_RATIO,
                    first: Box::new(LayoutNode::Leaf { id, area_type }),
                    second: Box::new(
                        LayoutNode::Leaf { id: new_id, area_type: split_companion(area_type) },
                    ),
                });
                assert(!is_leaf_with_id(LayoutNode::Leaf { id, area_type }, new_id));
                assert(is_leaf_with_id(
                    LayoutNode::Leaf { id: new_id, area_type: split_companion(area_type) },
                    new_id,
                ));
                assert(r.without_leaf(new_id) == LayoutNode::Leaf { id, area_type });
            } else {
                assert(node.with_split(target, new_id, direction) == node);
            }
        },
        LayoutNode::Split { id, direction: d, ratio, first, second } => {
            lemma_split_then_close_restores(*first, target, new_id, direction);
            lemma_split_then_close_restores(*second, target, new_id, direction);
            lemma_with_split_absent(*first, target, new_id, direction);
            lemma_with_split_absent(*second, target, new_id, direction);
            lemma_absent_not_removable(*first, new_id);
            lemma_absent_not_removable(*second, new_id);
            let f2 = first.with_split(target, new_id, direction);
            let s2 = second.with_split(target, new_id, direction);
            if first.has_leaf(target) {
                lemma_split_is_split(*first, target, new_id, direction);
                assert(!is_leaf_with_id(f2, new_id));
                lemma_absent_not_leaf(*second, new_id);
                assert(node.with_split(target, new_id, direction) == LayoutNode::Split {
                    id,
                    direction: d,
                    ratio,
                    first: Box::new(f2),
                    second,
                });
            } else {
                if second.has_leaf(target) {
                    lemma_split_is_split(*second, target, new_id, direction);
                } else {
                    lemma_absent_not_leaf(*second, new_id);
                }
                assert(!is_leaf_with_id(s2, new_id));
                lemma_absent_not_leaf(*first, new_id);
                assert(node.with_split(target, new_id, direction) == LayoutNode::Split {
                    id,
                    direction: d,
                    ratio,
                    first,
                    second: Box::new(s2),
                });
            }
        },
    }
}

/// After retyping an existing leaf, looking it up gives the new type.
pub proof fn lemma_retype_then_find(node: LayoutNode, leaf_id: usize, t: AreaType)
    requires
        node.has_leaf(leaf_id),
    ensures
        node.with_area(leaf_id, t).area_of(leaf_id) == Some(t),
    decreases node,
{
    match node {
        LayoutNode::Split { first, second, .. } => {
            if first.has_leaf(leaf_id) {
                lemma_retype_then_find(*first, leaf_id, t);
            } else {
                lemma_area_absent(*first, leaf_id);
                lemma_retype_then_find(*second, leaf_id, t);
            }
        },
        _ => {},
    }
}

/// Splitting an area opens its companion next to it: a Block or Wysiwyg
/// editor gets a Source editor, and a Source editor, the explorer, the
/// outline or the settings get a Block editor. The split area keeps its
/// own type.
pub proof fn lemma_split_opens_companion(
    node: LayoutNode,
    target: usize,
    new_id: usize,
    direction: SplitDirection,
)
    requires
        node.has_leaf(target),
        !node.has_leaf(new_id),
    ensures
        ({
            let r = node.with_split(target, new_id, direction);
            let t = node.area_of(target);
            &&& r.area_of(target) == t
            &&& t == Some(AreaType::Block) ==> r.area_of(new_id) == Some(AreaType::Source)
            &&& t == Some(AreaType::Wysiwyg) ==> r.area_of(new_id) == Some(AreaType::Source)
            &&& t == Some(AreaType::Source) ==> r.area_of(new_id) == Some(AreaType::Block)
            &&& t == Some(AreaType::Explorer) ==> r.area_of(new_id) == Some(AreaType::Block)
            &&& t == Some(AreaType::Outline) ==> r.area_of(new_id) == Some(AreaType::Block)
            &&& t == Some(AreaType::Settings) ==> r.area_of(new_id) == Some(AreaType::Block)
        }),
    decreases node,
{
    match node {
        LayoutNode::Leaf { id, area_type } => {
            let r = node.with_split(target, new_id, direction);
            reveal_with_fuel(LayoutNode::area_of, 2);
            assert(r.area_of(new_id) == Some(split_companion(area_type)));
            assert(r.area_of(target) == Some(area_type));
        },
        LayoutNode::Split { first, second, .. } => {
            lemma_area_absent(*first, new_id);
            lemma_area_absent(*first, target);
            if first.has_leaf(target) {
                lemma_split_opens_companion(*first, target, new_id, direction);
            } else {
                lemma_split_opens_companion(*second, target, new_id, direction);
                lemma_with_split_absent(*first, target, new_id, direction);
            }
        },
    }
}

/// A leaf id that is not in the tree has no area type.
pub proof fn lemma_area_absent(node: LayoutNode, leaf_id: usize)
    ensures
        node.has_leaf(leaf_id) <==> node.area_of(leaf_id).is_some(),
    decreases node,
{
    match node {
        LayoutNode::Split { first, second, .. } => {
            lemma_area_absent(*first, leaf_id);
            lemma_area_absent(*second, leaf_id);
        },
        _ => {},
    }
}

/// Swapping the children of a split twice restores the tree.
pub proof fn lemma_swap_children_twice(node: LayoutNode, split_id: usize)
    ensures
        node.with_children_swapped(split_id).with_children_swapped(split_id) == node,
    decreases node,
{
    match node {
        LayoutNode::Split { id, first, second, .. } => {
            lemma_swap_children_twice(*first, split_id);
            lemma_swap_children_twice(*second, split_id);
            lemma_swapped_has_split(*first, split_id);
            lemma_swapped_has_split(*second, split_id);
        },
        _ => {},
    }
}

/// Swapping children keeps the set of split ids.
pub proof fn lemma_swapped_has_split(node: LayoutNode, split_id: usize)
    ensures
        forall|x: usize| #[trigger] node.with_children_swapped(split_id).has_split(x) == node.has_split(x),
    decreases node,
{
    match node {
        LayoutNode::Split { id, direction, ratio, first, second } => {
            lemma_swapped_has_split(*first, split_id);
            lemma_swapped_has_split(*second, split_id);
            let r = node.with_children_swapped(split_id);
            assert forall|x: usize| #[trigger] r.has_split(x) == node.has_split(x) by {
                let a = first.with_children_swapped(split_id).has_split(x);
                let b = second.with_children_swapped(split_id).has_split(x);
            }
        },
        _ => {},
    }
}

/// Toggling the same id twice restores a maximize or dropdown slot that
/// was empty or held that id.
pub proof fn lemma_toggle_twice_restores(current: Option<usize>, id: usize)
    requires
        current.is_none() || current == Some(id),
    ensures
        toggled(toggled(current, id), id) == current,
{
}

/// The area type given to the new half of a split leaf.
fn companion_area_type(t: AreaType) -> (r: AreaType)
    ensures
        r == split_companion(t),
{
    match t {
        AreaType::Block => AreaType::Source,
        AreaType::Wysiwyg => AreaType::Source,
        AreaType::Source => AreaType::Block,
        AreaType::Explorer => AreaType::Block,
        AreaType::Outline => AreaType::Block,
        AreaType::Settings => AreaType::Block,
    }
}

fn clamp_ratio_exec(r: i64) -> (c: u16)
    ensures
        c == clamp_ratio(r as int),
{
    if r < MIN_RATIO as i64 {
        MIN_RATIO
    } else if r > MAX_RATIO as i64 {
        MAX_RATIO
    } else {
        r as u16
    }
}

fn leaf_has_id(node: &LayoutNode, target: usize) -> (b: bool)
    ensures
        b == is_leaf_with_id(*node, target),
{
    match node {
        LayoutNode::Leaf { id, .. } => *id == target,
        LayoutNode::Split { .. } => false,
    }
}

/// Splitting at a leaf that is not in the tree leaves the tree unchanged.
pub proof fn lemma_with_split_absent(
    node: LayoutNode,
    target: usize,
    new_id: usize,
    direction: SplitDirection,
)
    ensures
        !node.has_leaf(target) ==> node.with_split(target, new_id, direction) == node,
    decreases node,
{
    match node {
        LayoutNode::Leaf { .. } => {},
        LayoutNode::Split { first, second, .. } => {
            lemma_with_split_absent(*first, target, new_id, direction);
            lemma_with_split_absent(*second, target, new_id, direction);
        },
    }
}

/// Removing a leaf that cannot be removed leaves the tree unchanged.
pub proof fn lemma_without_leaf_absent(node: LayoutNode, target: usize)
    ensures
        !node.can_remove(target) ==> node.without_leaf(target) == node,
    decreases node,
{
    match node {
        LayoutNode::Leaf { .. } => {},
        LayoutNode::Split { first, second, .. } => {
            lemma_without_leaf_absent(*first, target);
            lemma_without_leaf_absent(*second, target);
        },
    }
}

/// Setting the ratio of a split that is not in the tree changes nothing.
pub proof fn lemma_with_ratio_absent(node: LayoutNode, split_id: usize, r: u16)
    ensures
        !node.has_split(split_id) ==> node.with_ratio(split_id, r) == node,
    decreases node,
{
    match node {
        LayoutNode::Leaf { .. } => {},
        LayoutNode::Split { first, second, .. } => {
            lemma_with_ratio_absent(*first, split_id, r);
            lemma_with_ratio_absent(*second, split_id, r);
        },
    }
}

/// Swapping the children of a split that is not in the tree changes nothing.
pub proof fn lemma_with_children_swapped_absent(node: LayoutNode, split_id: usize)
    ensures
        !node.has_split(split_id) ==> node.with_children_swapped(split_id) == node,
    decreases node,
{
    match node {
        LayoutNode::Leaf { .. } => {},
        LayoutNode::Split { first, second, .. } => {
            lemma_with_children_swapped_absent(*first, split_id);
            lemma_with_children_swapped_absent(*second, split_id);
        },
    }
}

/// Retyping a leaf that is not in the tree leaves the tree unchanged.
pub proof fn lemma_with_area_absent(node: LayoutNode, leaf_id: usize, t: AreaType)
    ensures
        !node.has_leaf(leaf_id) ==> node.with_area(leaf_id, t) == node,
    decreases node,
{
    match node {
        LayoutNode::Leaf { .. } => {},
        LayoutNode::Split { first, second, .. } => {
            lemma_with_area_absent(*first, leaf_id, t);
            lemma_with_area_absent(*second, leaf_id, t);
        },
    }
}

} // verus!
