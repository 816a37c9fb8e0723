//! The overlay window model and the native operations it requests.
//!
//! An overlay's native handle lives outside the library; here an overlay
//! is its plain state (profile, tracked title, last-applied flags) and
//! every mutation is returned as an `Action` for the caller to apply to
//! the native window, keyed by the overlay's sequence id.

use vstd::prelude::*;
use crate::data_manager::Shift;
use crate::snapshot::Rect;

verus! {

/// One native window operation requested by the engine.  The caller
/// resolves `id` to the native window it owns for that overlay; for
/// `Create` it reads the rest of the overlay's state (profile, target,
/// opacity, click-through) from the engine's owned set.
#[derive(Clone, Copy, PartialEq, Eq, Structural, Debug)]
pub enum Action {
    /// Build the native window and content host for the overlay with
    /// this sequence id.
    Create { id: u64 },
    /// Resize and move the native window, and have the hosted content
    /// surface re-layout.
    SetRect { id: u64, x: i64, y: i64, width: i64, height: i64 },
    /// Toggle "stay above normal windows".
    SetFront { id: u64, front: bool },
    /// Reinsert the native window in stacking order directly behind the
    /// given predecessor window.
    SetOrder { id: u64, predecessor: i64 },
    /// Set window-level opacity, in thousandths of fully opaque.
    SetTransparent { id: u64, alpha: u32 },
    /// Make the overlay ignore (or accept) pointer input.
    SetClickThrough { id: u64, on: bool },
    /// Close the native window and release it.
    Destroy { id: u64 },
}

/// One owned overlay window: the wallpaper profile it shows, the exact
/// title of the live window it shadows, its last-applied front state, and
/// its sequence id.  The pair (`wallpaper`, `target`) identifies the
/// overlay; the id routes asynchronous messages and actions back to it.
pub struct Window {
    pub wallpaper: String,
    pub target: String,
    pub front: bool,
    pub id: u64,
    pub alpha: u32,
    pub click_through: bool,
}

impl Window {
    /// Applies a new "pinned front" state, edge-triggered: an action is
    /// requested exactly when the state changes.
    pub fn set_front(&mut self, front: bool) -> (r: Option<Action>)
        ensures
            *final(self) == (Window { front, ..*old(self) }),
            r == if front != old(self).front {
                Some(Action::SetFront { id: old(self).id, front })
            } else {
                None::<Action>
            },
    {
        if front != self.front {
            self.front = front;
            Some(Action::SetFront { id: self.id, front })
        } else {
            None
        }
    }

    /// Requests the move and resize of the overlay to the live window's
    /// rectangle adjusted by the rule's shift.
    pub fn set_rect(&self, shift: &Shift, rect: &Rect) -> (r: Action)
        requires
            rect.wf(),
        ensures
            r == (Action::SetRect {
                id: self.id,
                x: (rect.x + shift.left) as i64,
                y: (rect.y + shift.up) as i64,
                width: (rect.width + shift.right) as i64,
                height: (rect.height + shift.down) as i64,
            }),
            r matches Action::SetRect { id, x, y, width, height } ==> x == rect.x + shift.left && y
                == rect.y + shift.up && width == rect.width + shift.right && height == rect.height
                + shift.down,
    {
        Action::SetRect {
            id: self.id,
            x: rect.x + (shift.left as i64),
            y: rect.y + (shift.up as i64),
            width: rect.width + (shift.right as i64),
            height: rect.height + (shift.down as i64),
        }
    }

    /// Requests a restack behind the given predecessor — only while the
    /// overlay is not pinned front (pinning already places it) and a
    /// predecessor exists.
    pub fn set_order(&self, predecessor: Option<i64>) -> (r: Option<Action>)
        ensures
            r == if !self.front && predecessor.is_some() {
                Some(Action::SetOrder { id: self.id, predecessor: predecessor.unwrap() })
            } else {
                None::<Action>
            },
    {
        if !self.front {
            match predecessor {
                Some(p) => Some(Action::SetOrder { id: self.id, predecessor: p }),
                None => None,
            }
        } else {
            None
        }
    }

    /// Records a new opacity and requests it on the native window.
    pub fn set_transparent(&mut self, alpha: u32) -> (r: Action)
        ensures
            *final(self) == (Window { alpha, ..*old(self) }),
            r == (Action::SetTransparent { id: old(self).id, alpha }),
    {
        self.alpha = alpha;
        Action::SetTransparent { id: self.id, alpha }
    }

    /// Records a new click-through state and requests it on the native
    /// window.
    pub fn set_click_through(&mut self, on: bool) -> (r: Action)
        ensures
            *final(self) == (Window { click_through: on, ..*old(self) }),
            r == (Action::SetClickThrough { id: old(self).id, on }),
    {
        self.click_through = on;
        Action::SetClickThrough { id: self.id, on }
    }
}

} // verus!
