//! Editor session vocabulary: the per-area document tab list and the pane
//! kinds an editor panel can host.

use vstd::prelude::*;
use vstd::std_specs::iter::IteratorSpec;

verus! {

/// The document tabs owned by one editor area, with the index of the
/// active tab.
///
/// The list keeps its active index inside the list: it is `0` when the list
/// is empty and a valid position otherwise.
#[derive(Debug, PartialEq, Eq)]
pub struct EditorTabList<T> {
    tabs: Vec<T>,
    active_tab: usize,
}

impl<T: Clone> Clone for EditorTabList<T> {
    /// A copy of the list: each tab cloned, the same tab active.
    fn clone(&self) -> (copy: Self)
        ensures
            copy.tabs_seq().len() == self.tabs_seq().len(),
            forall|i: int|
                0 <= i < self.tabs_seq().len() ==> cloned::<T>(
                    self.tabs_seq()[i],
                    #[trigger] copy.tabs_seq()[i],
                ),
            copy.active_pos() == self.active_pos(),
    {
        proof {
            use_type_invariant(self);
        }
        Self { tabs: self.tabs.clone(), active_tab: self.active_tab }
    }
}

impl<T> Default for EditorTabList<T> {
    /// An empty tab list.
    fn default() -> (list: Self)
        ensures
            list.tabs_seq() == Seq::<T>::empty(),
            list.active_pos() == 0,
    {
        Self::empty()
    }
}

impl<T> EditorTabList<T> {
    /// The tabs, in order.
    pub closed spec fn tabs_seq(&self) -> Seq<T> {
        self.tabs@
    }

    /// The index of the active tab.
    pub closed spec fn active_pos(&self) -> nat {
        self.active_tab as nat
    }

    /// The active index points into the list, or is `0` for an empty list.
    #[verifier::type_invariant]
    pub open spec fn wf(&self) -> bool {
        if self.tabs_seq().len() == 0 {
            self.active_pos() == 0
        } else {
            self.active_pos() < self.tabs_seq().len()
        }
    }

    /// Rebuilds a list from parts that keep the invariant.
    fn from_parts(tabs: Vec<T>, active_tab: usize) -> (list: Self)
        requires
            if tabs@.len() == 0 {
                active_tab == 0
            } else {
                active_tab < tabs@.len()
            },
        ensures
            list.tabs_seq() == tabs@,
            list.active_pos() == active_tab,
    {
        Self { tabs, active_tab }
    }

    /// Moves the parts out of the list, leaving it empty.
    fn take_parts(&mut self) -> (parts: (Vec<T>, usize))
        ensures
            old(self).wf(),
            parts.0@ == old(self).tabs_seq(),
            parts.1 == old(self).active_pos(),
            final(self).tabs_seq() == Seq::<T>::empty(),
            final(self).active_pos() == 0,
    {
        proof {
            use_type_invariant(&*self);
        }
        let mut other = Self::empty();
        std::mem::swap(self, &mut other);
        let EditorTabList { tabs, active_tab } = other;
        (tabs, active_tab)
    }

    /// An empty tab list.
    pub fn new() -> (list: Self)
        ensures
            list.tabs_seq() == Seq::<T>::empty(),
            list.active_pos() == 0,
    {
        Self::empty()
    }

    /// An empty tab list.
    pub fn empty() -> (list: Self)
        ensures
            list.tabs_seq() == Seq::<T>::empty(),
            list.active_pos() == 0,
    {
        Self { tabs: Vec::new(), active_tab: 0 }
    }

    pub fn is_empty(&self) -> (b: bool)
        ensures
            self.wf(),
            b == (self.tabs_seq().len() == 0),
    {
        proof {
            use_type_invariant(self);
        }
        self.tabs.len() == 0
    }

    pub fn len(&self) -> (n: usize)
        ensures
            self.wf(),
            n == self.tabs_seq().len(),
    {
        proof {
            use_type_invariant(self);
        }
        self.tabs.len()
    }

    pub fn active_index(&self) -> (i: usize)
        ensures
            self.wf(),
            i == self.active_pos(),
    {
        proof {
            use_type_invariant(self);
        }
        self.active_tab
    }

    /// Appends a tab and returns its index.
    pub fn push(&mut self, tab: T) -> (index: usize)
        requires
            old(self).tabs_seq().len() < usize::MAX,
        ensures
            index == old(self).tabs_seq().len(),
            final(self).tabs_seq() == old(self).tabs_seq().push(tab),
            final(self).active_pos() == old(self).active_pos(),
    {
        let (mut tabs, active_tab) = self.take_parts();
        let index = tabs.len();
        tabs.push(tab);
        *self = Self::from_parts(tabs, active_tab);
        index
    }

    /// The tab at `index`, if there is one.
    pub fn get(&self, index: usize) -> (r: Option<&T>)
        ensures
            index < self.tabs_seq().len() ==> r == Some(&self.tabs_seq()[index as int]),
            index >= self.tabs_seq().len() ==> r.is_none(),
    {
        if index < self.tabs.len() {
            Some(&self.tabs[index])
        } else {
            None
        }
    }

    /// The tab at `index`, mutably, if there is one.
    pub fn get_mut(&mut self, index: usize) -> (r: Option<&mut T>)
        ensures
            index < old(self).tabs_seq().len() ==> r.is_some() && *r.unwrap()
                == old(self).tabs_seq()[index as int] && final(self).tabs_seq() == old(
                self,
            ).tabs_seq().update(index as int, *final(r.unwrap())),
            index >= old(self).tabs_seq().len() ==> r.is_none() && final(self).tabs_seq()
                == old(self).tabs_seq(),
            final(self).active_pos() == old(self).active_pos(),
    {
        proof {
            use_type_invariant(&*self);
        }
        if index < self.tabs.len() {
            Some(&mut self.tabs[index])
        } else {
            None
        }
    }

    /// The active tab, if the list is not empty.
    pub fn active_tab(&self) -> (r: Option<&T>)
        ensures
            self.wf(),
            r.is_none() <==> self.tabs_seq().len() == 0,
            r.is_some() ==> r == Some(&self.tabs_seq()[self.active_pos() as int]),
    {
        proof {
            use_type_invariant(self);
        }
        self.get(self.active_tab)
    }

    /// The active tab, mutably, if the list is not empty.
    pub fn active_tab_mut(&mut self) -> (r: Option<&mut T>)
        ensures
            old(self).wf(),
            r.is_none() <==> old(self).tabs_seq().len() == 0,
            r.is_some() ==> *r.unwrap() == old(self).tabs_seq()[old(self).active_pos() as int]
                && final(self).tabs_seq() == old(self).tabs_seq().update(
                old(self).active_pos() as int,
                *final(r.unwrap()),
            ),
            r.is_none() ==> final(self).tabs_seq() == old(self).tabs_seq(),
            final(self).active_pos() == old(self).active_pos(),
    {
        proof {
            use_type_invariant(&*self);
        }
        let index = self.active_tab;
        self.get_mut(index)
    }

    /// Makes the tab at `index` active, clamping `index` to the last tab.
    pub fn set_active_tab(&mut self, index: usize)
        ensures
            final(self).tabs_seq() == old(self).tabs_seq(),
            final(self).active_pos() == clamp_index(index as nat, old(self).tabs_seq().len()),
    {
        let (tabs, _) = self.take_parts();
        let active_tab = if tabs.len() == 0 {
            0
        } else {
            let last = tabs.len() - 1;
            if index < last { index } else { last }
        };
        *self = Self::from_parts(tabs, active_tab);
    }

    /// Removes and returns the tab at `index`, keeping the active index on
    /// the same tab where it survives, or on its nearest neighbour.
    pub fn close_tab(&mut self, index: usize) -> (r: Option<T>)
        ensures
            index >= old(self).tabs_seq().len() ==> r.is_none() && final(self).tabs_seq()
                == old(self).tabs_seq() && final(self).active_pos() == old(self).active_pos(),
            index < old(self).tabs_seq().len() ==> {
                &&& r == Some(old(self).tabs_seq()[index as int])
                &&& final(self).tabs_seq() == old(self).tabs_seq().remove(index as int)
                &&& final(self).active_pos() == active_after_close(
                    old(self).active_pos(),
                    index as nat,
                    old(self).tabs_seq().len(),
                )
            },
    {
        let (mut tabs, active) = self.take_parts();
        if index >= tabs.len() {
            *self = Self::from_parts(tabs, active);
            return None;
        }
        let removed = tabs.remove(index);
        let active_tab = if tabs.len() == 0 {
            0
        } else if index == active {
            let last = tabs.len() - 1;
            if index < last { index } else { last }
        } else if index < active {
            active - 1
        } else {
            active
        };
        *self = Self::from_parts(tabs, active_tab);
        Some(removed)
    }

    /// Removes every tab.
    pub fn clear(&mut self)
        ensures
            final(self).tabs_seq() == Seq::<T>::empty(),
            final(self).active_pos() == 0,
    {
        *self = Self::empty();
    }

    /// The tabs as a slice.
    pub fn as_slice(&self) -> (s: &[T])
        ensures
            s@ == self.tabs_seq(),
    {
        self.tabs.as_slice()
    }

    /// Exchanges the tabs at `a` and `b` when both are in range; the active
    /// index follows the tab it pointed at.
    pub fn swap(&mut self, a: usize, b: usize)
        ensures
            a < old(self).tabs_seq().len() && b < old(self).tabs_seq().len() ==> {
                &&& final(self).tabs_seq() == swap_seq(old(self).tabs_seq(), a as int, b as int)
                &&& final(self).active_pos() == swapped_index(
                    old(self).active_pos(),
                    a as nat,
                    b as nat,
                )
            },
            !(a < old(self).tabs_seq().len() && b < old(self).tabs_seq().len()) ==> {
                &&& final(self).tabs_seq() == old(self).tabs_seq()
                &&& final(self).active_pos() == old(self).active_pos()
            },
    {
        let (mut tabs, active) = self.take_parts();
        let mut active_tab = active;
        if a < tabs.len() && b < tabs.len() {
            if a != b {
                let ghost before = tabs@;
                let (lo, hi) = if a < b { (a, b) } else { (b, a) };
                let high_tab = tabs.remove(hi);
                let low_tab = tabs.remove(lo);
                tabs.insert(lo, high_tab);
                tabs.insert(hi, low_tab);
                assert(tabs@ =~= swap_seq(before, a as int, b as int));
            }
            if active == a {
                active_tab = b;
            } else if active == b {
                active_tab = a;
            }
        }
        *self = Self::from_parts(tabs, active_tab);
    }

    /// An iterator over the tabs, in order.
    pub fn iter(&self) -> (it: std::slice::Iter<'_, T>)
        ensures
            IteratorSpec::remaining(&it) == self.tabs_seq().as_ref(),
    {
        self.tabs.as_slice().iter()
    }

    /// An iterator over the tabs, in order, that can change each tab in
    /// place; the list keeps its length and its active index.
    pub fn iter_mut(&mut self) -> (it: std::slice::IterMut<'_, T>)
        ensures
            final(self).tabs_seq().len() == old(self).tabs_seq().len(),
            final(self).active_pos() == old(self).active_pos(),
    {
        proof {
            use_type_invariant(&*self);
        }
        vec_iter_mut(&mut self.tabs)
    }
}

impl<'a, T> IntoIterator for &'a EditorTabList<T> {
    type Item = &'a T;

    type IntoIter = std::slice::Iter<'a, T>;

    /// An iterator over the tabs, in order.
    fn into_iter(self) -> (it: std::slice::Iter<'a, T>) {
        self.iter()
    }
}

impl<'a, T> IntoIterator for &'a mut EditorTabList<T> {
    type Item = &'a mut T;

    type IntoIter = std::slice::IterMut<'a, T>;

    /// An iterator over the tabs, in order, that can change each tab in
    /// place.
    fn into_iter(self) -> (it: std::slice::IterMut<'a, T>) {
        proof {
            use_type_invariant(&*self);
        }
        vec_iter_mut(&mut self.tabs)
    }
}

#[verifier::external_type_specification]
#[verifier::external_body]
#[verifier::reject_recursive_types(T)]
pub struct ExSliceIterMut<'a, T: 'a>(std::slice::IterMut<'a, T>);

/// `<[T]>::iter_mut`, reached through the vector: an iterator over mutable
/// references to the items, front to back. Through it the items change in
/// place; the vector keeps its length. The call does not panic. What the
/// iterator yields is not stated.
#[verifier::external_body]
fn vec_iter_mut<T>(items: &mut Vec<T>) -> (it: std::slice::IterMut<'_, T>)
    ensures
        final(items)@.len() == old(items)@.len(),
    no_unwind
{
    items.iter_mut()
}

/// The pane kinds an editor panel can host.
#[derive(Clone, Copy, Debug, PartialEq, Eq, Structural)]
pub enum EditorPaneKind {
    /// Raw Markdown source code editor.
    SourceCode,
    /// Visual block editor (WYSIWYG rendered view).
    Wysiwyg,
    /// Read-only rendered Markdown preview.
    Preview,
    /// Document section headings outline.
    Outline,
}

/// The label shown for each pane kind.
pub open spec fn pane_kind_label(kind: EditorPaneKind) -> Seq<char> {
    match kind {
        EditorPaneKind::SourceCode => "Source Code"@,
        EditorPaneKind::Wysiwyg => "Wysiwyg"@,
        EditorPaneKind::Preview => "Preview"@,
        EditorPaneKind::Outline => "Outline"@,
    }
}

/// The pane kinds in the order the status-bar dropdown lists them.
pub open spec fn pane_kind_menu_order() -> Seq<EditorPaneKind> {
    seq![
        EditorPaneKind::Wysiwyg,
        EditorPaneKind::Preview,
        EditorPaneKind::SourceCode,
        EditorPaneKind::Outline,
    ]
}

impl EditorPaneKind {
    pub fn is_wysiwyg(&self) -> (b: bool)
        ensures
            b == (*self == EditorPaneKind::Wysiwyg),
    {
        matches!(self, Self::Wysiwyg)
    }

    pub fn is_source_code(&self) -> (b: bool)
        ensures
            b == (*self == EditorPaneKind::SourceCode),
    {
        matches!(self, Self::SourceCode)
    }

    pub fn name(&self) -> (r: &'static str)
        ensures
            r@ == pane_kind_label(*self),
    {
        match self {
            Self::SourceCode => {
                let r = "Source Code";
                proof {
                    reveal_strlit("Source Code");
                }
                r
            },
            Self::Wysiwyg => {
                let r = "Wysiwyg";
                proof {
                    reveal_strlit("Wysiwyg");
                }
                r
            },
            Self::Preview => {
                let r = "Preview";
                proof {
                    reveal_strlit("Preview");
                }
                r
            },
            Self::Outline => {
                let r = "Outline";
                proof {
                    reveal_strlit("Outline");
                }
                r
            },
        }
    }

    /// All pane kinds, in the order of the status-bar dropdown.
    pub fn all() -> (r: &'static [EditorPaneKind])
        ensures
            r@ == pane_kind_menu_order(),
    {
        let r: &'static [EditorPaneKind] = &[
            Self::Wysiwyg,
            Self::Preview,
            Self::SourceCode,
            Self::Outline,
        ];
        assert(r@ =~= pane_kind_menu_order());
        r
    }
}

/// `index` limited to the last position of a list of `len` items (`0` when
/// the list is empty).
pub open spec fn clamp_index(index: nat, len: nat) -> nat {
    if len == 0 {
        0
    } else if index < len - 1 {
        index
    } else {
        (len - 1) as nat
    }
}

/// The active index after the tab at `index` is removed from a list of
/// `len` tabs whose active index was `active`.
pub open spec fn active_after_close(active: nat, index: nat, len: nat) -> nat {
    if len <= 1 {
        0
    } else if index == active {
        clamp_index(index, (len - 1) as nat)
    } else if index < active {
        (active - 1) as nat
    } else {
        active
    }
}

/// `s` with the items at `a` and `b` exchanged.
pub open spec fn swap_seq<T>(s: Seq<T>, a: int, b: int) -> Seq<T> {
    s.update(a, s[b]).update(b, s[a])
}

/// Where the item at position `i` ends up when positions `a` and `b` are
/// exchanged.
pub open spec fn swapped_index(i: nat, a: nat, b: nat) -> nat {
    if i == a {
        b
    } else if i == b {
        a
    } else {
        i
    }
}

/// Closing a tab other than the active one leaves the same tab active.
pub proof fn lemma_close_other_keeps_active_tab<T>(tabs: Seq<T>, active: nat, index: nat)
    requires
        active < tabs.len(),
        index < tabs.len(),
        index != active,
    ensures
        active_after_close(active, index, tabs.len()) < tabs.remove(index as int).len(),
        tabs.remove(index as int)[active_after_close(active, index, tabs.len()) as int]
            == tabs[active as int],
{
}

/// Closing the active tab of a list with more than one tab activates the
/// tab that took its place, or the new last tab when it was the last.
pub proof fn lemma_close_active_selects_neighbour<T>(tabs: Seq<T>, active: nat)
    requires
        active < tabs.len(),
        tabs.len() > 1,
    ensures
        active_after_close(active, active, tabs.len()) == if active + 1 < tabs.len() {
            active
        } else {
            (active - 1) as nat
        },
{
}

/// Swapping keeps the active tab active: it now sits at its new position.
pub proof fn lemma_swap_keeps_active_tab<T>(tabs: Seq<T>, active: nat, a: nat, b: nat)
    requires
        active < tabs.len(),
        a < tabs.len(),
        b < tabs.len(),
    ensures
        swapped_index(active, a, b) < tabs.len(),
        swap_seq(tabs, a as int, b as int)[swapped_index(active, a, b) as int]
            == tabs[active as int],
{
}

/// Swapping the same two tabs twice restores the list and its active index.
pub proof fn lemma_swap_twice_restores<T>(tabs: Seq<T>, active: nat, a: nat, b: nat)
    requires
        a < tabs.len(),
        b < tabs.len(),
    ensures
        swap_seq(swap_seq(tabs, a as int, b as int), a as int, b as int) == tabs,
        swapped_index(swapped_index(active, a, b), a, b) == active,
{
    assert(swap_seq(swap_seq(tabs, a as int, b as int), a as int, b as int) =~= tabs);
}

/// Pushing a tab and then closing it (the last tab) gives the pushed tab
/// back and restores the list and its active index.
pub proof fn lemma_push_then_close_last_restores<T>(tabs: Seq<T>, active: nat, tab: T)
    requires
        if tabs.len() == 0 {
            active == 0
        } else {
            active < tabs.len()
        },
    ensures
        tabs.push(tab)[tabs.len() as int] == tab,
        tabs.push(tab).remove(tabs.len() as int) == tabs,
        active_after_close(active, tabs.len(), tabs.len() + 1) == active,
{
    assert(tabs.push(tab).remove(tabs.len() as int) =~= tabs);
}

} // verus!
