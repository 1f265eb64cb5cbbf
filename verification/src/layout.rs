//! Where the panel with a candidate's details goes.

use vstd::prelude::*;

verus! {

/// A rectangle of screen cells.
#[derive(Debug, Clone, Copy, PartialEq, Eq)]
pub struct Rect {
    pub x: u16,
    pub y: u16,
    pub width: u16,
    pub height: u16,
}

/// The least width left of the list's right edge for which the panel goes
/// there: it must be wider than this.
pub const MIN_SIDE_WIDTH: u16 = 30;

/// The greatest height of a panel above or below the list.
pub const MAX_STACKED_HEIGHT: u16 = 15;

/// A panel above or below the list must be higher than this.
pub const MIN_STACKED_HEIGHT: u16 = 1;

/// `a - b`, or 0 where `b` is the greater.
pub open spec fn minus(a: int, b: int) -> int {
    if a >= b {
        a - b
    } else {
        0
    }
}

/// `a + b`, or the greatest `u16` where the sum is beyond it.
pub open spec fn plus(a: int, b: int) -> int {
    if a + b <= u16::MAX {
        a + b
    } else {
        u16::MAX as int
    }
}

pub open spec fn least(a: int, b: int) -> int {
    if a <= b {
        a
    } else {
        b
    }
}

pub open spec fn greatest(a: int, b: int) -> int {
    if a >= b {
        a
    } else {
        b
    }
}

impl Rect {
    /// The first column right of the rectangle.
    pub open spec fn right_edge(self) -> int {
        plus(self.x as int, self.width as int)
    }

    /// The first row below the rectangle.
    pub open spec fn bottom_edge(self) -> int {
        plus(self.y as int, self.height as int)
    }

    /// The first column right of the rectangle.
    pub fn right(&self) -> (out: u16)
        ensures
            out == self.right_edge(),
    {
        self.x.saturating_add(self.width)
    }

    /// The first row below the rectangle.
    pub fn bottom(&self) -> (out: u16)
        ensures
            out == self.bottom_edge(),
    {
        self.y.saturating_add(self.height)
    }
}

/// Where the panel may go.
#[derive(Debug, Clone, Copy, PartialEq, Eq)]
pub enum Placement {
    /// Right of the list, in at most this rectangle; the panel shrinks to
    /// what its content needs.
    Side(Rect),
    /// Above or below the list, in exactly this rectangle.
    Stacked(Rect),
    /// Nowhere: what room there is would not be readable.
    Hidden,
}

/// The rows free above the list and the cursor, one row kept clear.
pub open spec fn room_above(popup: Rect, cursor_row: u16) -> int {
    minus(least(cursor_row as int, popup.y as int), 1)
}

/// The rows free below the list and the cursor, one row kept clear.
pub open spec fn room_below(viewport: Rect, popup: Rect, cursor_row: u16) -> int {
    minus(viewport.height as int, greatest(cursor_row as int, popup.bottom_edge()) + 1)
}

/// Where the panel goes for a list at `popup` in `viewport` with the
/// cursor in row `cursor_row`.
///
/// Right of the list where more than [`MIN_SIDE_WIDTH`] columns are
/// left there. Otherwise across the viewport below the list and the cursor
/// or above them, whichever has more rows, below where both have the
/// same; never higher than [`MAX_STACKED_HEIGHT`], and not at all unless
/// higher than [`MIN_STACKED_HEIGHT`].
pub open spec fn placement(viewport: Rect, popup: Rect, cursor_row: u16) -> Placement {
    let side = minus(viewport.width as int, popup.right_edge());
    let above = room_above(popup, cursor_row);
    let below = room_below(viewport, popup, cursor_row);
    if side > MIN_SIDE_WIDTH {
        Placement::Side(
            Rect {
                x: popup.right_edge() as u16,
                y: popup.y,
                width: side as u16,
                height: minus(viewport.height as int, popup.y as int) as u16,
            },
        )
    } else if below >= above {
        if below <= MIN_STACKED_HEIGHT {
            Placement::Hidden
        } else {
            Placement::Stacked(
                Rect {
                    x: 0,
                    y: minus(viewport.height as int, below) as u16,
                    width: viewport.width,
                    height: least(below, MAX_STACKED_HEIGHT as int) as u16,
                },
            )
        }
    } else if above <= MIN_STACKED_HEIGHT {
        Placement::Hidden
    } else {
        Placement::Stacked(
            Rect {
                x: 0,
                y: 0,
                width: viewport.width,
                height: least(above, MAX_STACKED_HEIGHT as int) as u16,
            },
        )
    }
}

/// Where the panel goes; see [`placement`].
pub fn doc_placement(viewport: Rect, popup: Rect, cursor_row: u16) -> (out: Placement)
    ensures
        out == placement(viewport, popup, cursor_row),
{
    let side = viewport.width.saturating_sub(popup.right());
    if side > MIN_SIDE_WIDTH {
        return Placement::Side(
            Rect {
                x: popup.right(),
                y: popup.y,
                width: side,
                height: viewport.height.saturating_sub(popup.y),
            },
        );
    }
    let top = if cursor_row <= popup.y {
        cursor_row
    } else {
        popup.y
    };
    let above = top.saturating_sub(1);
    let bottom = popup.bottom();
    let low: u32 = if cursor_row >= bottom {
        cursor_row as u32
    } else {
        bottom as u32
    };
    let below: u16 = if viewport.height as u32 >= low + 1 {
        (viewport.height as u32 - (low + 1)) as u16
    } else {
        0
    };
    let (y, room) = if below >= above {
        (viewport.height.saturating_sub(below), below)
    } else {
        (0, above)
    };
    if room <= MIN_STACKED_HEIGHT {
        return Placement::Hidden;
    }
    let height = if room <= MAX_STACKED_HEIGHT {
        room
    } else {
        MAX_STACKED_HEIGHT
    };
    Placement::Stacked(Rect { x: 0, y, width: viewport.width, height })
}

/// `bounds` shrunk to what the content needs, where it says so.
pub open spec fn fitted(bounds: Rect, required: Option<(u16, u16)>) -> Rect {
    match required {
        Some((width, height)) => Rect {
            width: least(width as int, bounds.width as int) as u16,
            height: least(height as int, bounds.height as int) as u16,
            ..bounds
        },
        None => bounds,
    }
}

/// The panel's rectangle inside `bounds`, given the size its content
/// asks for, if it told.
pub fn fit(bounds: Rect, required: Option<(u16, u16)>) -> (out: Rect)
    ensures
        out == fitted(bounds, required),
{
    match required {
        Some((width, height)) => Rect {
            x: bounds.x,
            y: bounds.y,
            width: if width <= bounds.width {
                width
            } else {
                bounds.width
            },
            height: if height <= bounds.height {
                height
            } else {
                bounds.height
            },
        },
        None => bounds,
    }
}

/// A panel above or below the list covers neither the list nor the
/// cursor's row, and stays inside the viewport where the list or the
/// cursor starts inside it.
pub proof fn lemma_stacked_is_clear(viewport: Rect, popup: Rect, cursor_row: u16)
    requires
        placement(viewport, popup, cursor_row) is Stacked,
    ensures
        ({
            let r = placement(viewport, popup, cursor_row)->Stacked_0;
            &&& MIN_STACKED_HEIGHT < r.height <= MAX_STACKED_HEIGHT
            &&& (cursor_row <= viewport.height || popup.y <= viewport.height) ==> r.y + r.height
                <= viewport.height
            &&& (r.y + r.height <= popup.y && r.y + r.height <= cursor_row) || (r.y
                >= popup.bottom_edge() && r.y > cursor_row)
        }),
{
}

/// In a viewport one row higher than a list that lies inside it, with no
/// room right of the list, there is no panel.
pub proof fn lemma_no_room_no_panel(viewport: Rect, popup: Rect, cursor_row: u16)
    requires
        viewport.height == popup.height + 1,
        popup.y + popup.height <= viewport.height,
        minus(viewport.width as int, popup.right_edge()) <= MIN_SIDE_WIDTH,
    ensures
        placement(viewport, popup, cursor_row) is Hidden,
{
}

} // verus!
