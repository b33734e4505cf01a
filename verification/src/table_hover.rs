//! Hover state of a table's append controls (add column, add row).
//!
//! A control shows while the pointer is over the table edge, the control's
//! zone or its button. When the pointer leaves all three, the control does
//! not hide at once: a short close timer starts, so that the pointer can
//! cross the gap between the edge and the button. The caller runs the
//! timer (120 ms) and reports when it fires.

use vstd::prelude::*;

verus! {

/// How long a control stays after the pointer leaves it, in milliseconds.
pub const APPEND_CONTROL_CLOSE_DELAY_MS: u64 = 120;

/// Hover state of one append control.
#[derive(Clone, Copy, Debug, PartialEq, Eq, Structural)]
pub struct AppendControlHover {
    pub edge_hovered: bool,
    pub zone_hovered: bool,
    pub button_hovered: bool,
    /// Whether the control is shown.
    pub hovered: bool,
    /// Whether a close timer is running.
    pub close_pending: bool,
}

/// What a hover change asks of the caller.
#[derive(Clone, Copy, Debug, PartialEq, Eq, Structural)]
pub struct HoverOutcome {
    /// Some hover flag or the visibility changed: redraw.
    pub changed: bool,
    /// Start the close timer.
    pub start_close_timer: bool,
    /// Drop the running close timer.
    pub cancel_close_timer: bool,
}

impl AppendControlHover {
    /// Whether any part of the control is under the pointer.
    pub open spec fn stays(self) -> bool {
        self.edge_hovered || self.zone_hovered || self.button_hovered
    }

    /// The control shows exactly while a part is hovered or a close timer
    /// runs, and a close timer runs only while nothing is hovered.
    pub open spec fn wf(self) -> bool {
        &&& self.hovered <==> (self.stays() || self.close_pending)
        &&& self.close_pending ==> !self.stays()
    }

    /// `old` with each hover flag that is given replaced.
    pub open spec fn with_parts(
        self,
        edge: Option<bool>,
        zone: Option<bool>,
        button: Option<bool>,
    ) -> AppendControlHover {
        AppendControlHover {
            edge_hovered: match edge {
                Some(e) => e,
                None => self.edge_hovered,
            },
            zone_hovered: match zone {
                Some(z) => z,
                None => self.zone_hovered,
            },
            button_hovered: match button {
                Some(b) => b,
                None => self.button_hovered,
            },
            ..self
        }
    }

    /// The state after a hover change of the given parts: a hovered
    /// control shows and drops its close timer; a shown control with
    /// nothing hovered has a close timer running.
    pub open spec fn hover_step(
        self,
        edge: Option<bool>,
        zone: Option<bool>,
        button: Option<bool>,
    ) -> AppendControlHover {
        let parts = self.with_parts(edge, zone, button);
        AppendControlHover {
            hovered: parts.stays() || self.hovered,
            close_pending: !parts.stays() && (self.hovered || self.close_pending),
            ..parts
        }
    }

    /// The state after the close timer fires: the control hides unless a
    /// part is hovered; a timer that was dropped hides nothing.
    pub open spec fn timer_step(self) -> AppendControlHover {
        AppendControlHover {
            close_pending: false,
            hovered: self.hovered && (self.stays() || !self.close_pending),
            ..self
        }
    }

    /// A hidden control with nothing hovered.
    pub fn new() -> (h: AppendControlHover)
        ensures
            h.wf(),
            !h.hovered,
            !h.close_pending,
            !h.stays(),
    {
        AppendControlHover {
            edge_hovered: false,
            zone_hovered: false,
            button_hovered: false,
            hovered: false,
            close_pending: false,
        }
    }

    /// Whether any part of the control is under the pointer.
    pub fn should_stay_visible(&self) -> (b: bool)
        ensures
            b == self.stays(),
    {
        self.edge_hovered || self.zone_hovered || self.button_hovered
    }

    /// Records the hover of the parts given. A hovered control shows at
    /// once and drops its close timer; a shown control with nothing
    /// hovered starts the close timer unless one already runs.
    pub fn set_hover_part(
        &mut self,
        edge_hovered: Option<bool>,
        zone_hovered: Option<bool>,
        button_hovered: Option<bool>,
    ) -> (outcome: HoverOutcome)
        ensures
            *final(self) == old(self).hover_step(edge_hovered, zone_hovered, button_hovered),
            outcome.start_close_timer == (final(self).close_pending && !old(self).close_pending),
            outcome.cancel_close_timer == (final(self).stays() && old(self).close_pending),
            outcome.changed == (final(self).edge_hovered != old(self).edge_hovered
                || final(self).zone_hovered != old(self).zone_hovered || final(self).button_hovered
                != old(self).button_hovered || final(self).hovered != old(self).hovered),
            old(self).wf() ==> final(self).wf(),
    {
        let mut changed = false;
        if let Some(edge) = edge_hovered {
            if self.edge_hovered != edge {
                self.edge_hovered = edge;
                changed = true;
            }
        }
        if let Some(zone) = zone_hovered {
            if self.zone_hovered != zone {
                self.zone_hovered = zone;
                changed = true;
            }
        }
        if let Some(button) = button_hovered {
            if self.button_hovered != button {
                self.button_hovered = button;
                changed = true;
            }
        }
        let mut start_close_timer = false;
        let mut cancel_close_timer = false;
        if self.should_stay_visible() {
            cancel_close_timer = self.close_pending;
            self.close_pending = false;
            if !self.hovered {
                self.hovered = true;
                changed = true;
            }
        } else if self.hovered && !self.close_pending {
            self.close_pending = true;
            start_close_timer = true;
        }
        HoverOutcome { changed, start_close_timer, cancel_close_timer }
    }

    /// The close timer fired: the control hides unless a part is hovered
    /// again. A timer that was dropped in the meantime changes nothing.
    /// Returns whether the control hid.
    pub fn close_timer_fired(&mut self) -> (hid: bool)
        ensures
            *final(self) == old(self).timer_step(),
            hid == (old(self).hovered && !final(self).hovered),
            old(self).wf() ==> final(self).wf(),
    {
        if !self.close_pending {
            return false;
        }
        self.close_pending = false;
        if !self.should_stay_visible() && self.hovered {
            self.hovered = false;
            return true;
        }
        false
    }
}

/// The two append controls of a table.
#[derive(Clone, Copy, Debug, PartialEq, Eq, Structural)]
pub struct TableAppendControls {
    pub column: AppendControlHover,
    pub row: AppendControlHover,
}

impl TableAppendControls {
    /// Both controls hidden.
    pub fn new() -> (c: TableAppendControls)
        ensures
            c.column.wf() && c.row.wf(),
            !c.column.hovered && !c.row.hovered,
            !c.column.close_pending && !c.row.close_pending,
            !c.column.stays() && !c.row.stays(),
    {
        TableAppendControls { column: AppendControlHover::new(), row: AppendControlHover::new() }
    }

    /// Hover change of the add-column control; the row control is left as
    /// it is.
    pub fn set_table_append_column_hover_part(
        &mut self,
        edge_hovered: Option<bool>,
        zone_hovered: Option<bool>,
        button_hovered: Option<bool>,
    ) -> (outcome: HoverOutcome)
        ensures
            final(self).row == old(self).row,
            final(self).column == old(self).column.hover_step(edge_hovered, zone_hovered, button_hovered),
            outcome.start_close_timer == (final(self).column.close_pending && !old(self).column.close_pending),
            outcome.cancel_close_timer == (final(self).column.stays() && old(self).column.close_pending),
            outcome.changed == (final(self).column.edge_hovered != old(self).column.edge_hovered
                || final(self).column.zone_hovered != old(self).column.zone_hovered
                || final(self).column.button_hovered != old(self).column.button_hovered
                || final(self).column.hovered != old(self).column.hovered),
            old(self).column.wf() ==> final(self).column.wf(),
    {
        self.column.set_hover_part(edge_hovered, zone_hovered, button_hovered)
    }

    /// Hover change of the add-row control; the column control is left as
    /// it is.
    pub fn set_table_append_row_hover_part(
        &mut self,
        edge_hovered: Option<bool>,
        zone_hovered: Option<bool>,
        button_hovered: Option<bool>,
    ) -> (outcome: HoverOutcome)
        ensures
            final(self).column == old(self).column,
            final(self).row == old(self).row.hover_step(edge_hovered, zone_hovered, button_hovered),
            outcome.start_close_timer == (final(self).row.close_pending && !old(self).row.close_pending),
            outcome.cancel_close_timer == (final(self).row.stays() && old(self).row.close_pending),
            outcome.changed == (final(self).row.edge_hovered != old(self).row.edge_hovered
                || final(self).row.zone_hovered != old(self).row.zone_hovered
                || final(self).row.button_hovered != old(self).row.button_hovered
                || final(self).row.hovered != old(self).row.hovered),
            old(self).row.wf() ==> final(self).row.wf(),
    {
        self.row.set_hover_part(edge_hovered, zone_hovered, button_hovered)
    }
}

/// Crossing the gap: when one change moves the pointer from the edge to
/// the button, a shown control stays shown with no close timer running.
pub proof fn lemma_crossing_gap_keeps_control(
    h: AppendControlHover,
    edge: Option<bool>,
    zone: Option<bool>,
    button: Option<bool>,
)
    requires
        h.wf(),
        h.with_parts(edge, zone, button).stays(),
    ensures
        h.hover_step(edge, zone, button).hovered,
        !h.hover_step(edge, zone, button).close_pending,
{
}

/// Every hover change and every timer keep the control shown exactly
/// while a part is hovered or a close timer runs.
pub proof fn lemma_steps_keep_wf(
    h: AppendControlHover,
    edge: Option<bool>,
    zone: Option<bool>,
    button: Option<bool>,
)
    requires
        h.wf(),
    ensures
        h.hover_step(edge, zone, button).wf(),
        h.timer_step().wf(),
{
}

/// After the pointer leaves every part and the close timer fires, the
/// control is hidden.
pub proof fn lemma_leave_then_timer_hides(h: AppendControlHover)
    requires
        h.wf(),
    ensures
        !h.hover_step(Some(false), Some(false), Some(false)).timer_step().hovered,
        !h.hover_step(Some(false), Some(false), Some(false)).timer_step().close_pending,
{
}

/// A hover over any part shows the control at once.
pub proof fn lemma_hover_shows(h: AppendControlHover, edge: Option<bool>, zone: Option<bool>, button: Option<bool>)
    requires
        h.with_parts(edge, zone, button).stays(),
    ensures
        h.hover_step(edge, zone, button).hovered,
{
}

} // verus!
