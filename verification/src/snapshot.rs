//! The per-tick snapshot of live windows, as plain values.
//!
//! The operating-system enumeration runs outside the library and hands in
//! one `LiveWindow` per on-screen window.  The normalisation that the
//! engine relies on — collapsing duplicate raw entries for one titled
//! window to the entry with the largest bounding rectangle — is done here.

use vstd::prelude::*;

verus! {

/// A window rectangle in desktop coordinates.  The fields are wide so that
/// shifted rectangles never overflow; values read from the operating
/// system fit in 32 bits, which `wf` records.
#[derive(Clone, Copy, PartialEq, Eq, Structural)]
pub struct Rect {
    pub x: i64,
    pub y: i64,
    pub width: i64,
    pub height: i64,
}

impl Rect {
    /// Positions fit in 32 bits, as platform window coordinates do, and
    /// the extent is non-negative and no wider than the difference of two
    /// such coordinates.
    pub open spec fn wf(self) -> bool {
        &&& i32::MIN <= self.x <= i32::MAX
        &&& i32::MIN <= self.y <= i32::MAX
        &&& 0 <= self.width <= u32::MAX
        &&& 0 <= self.height <= u32::MAX
    }

    /// The rectangle's area, the measure of "largest" when duplicate
    /// entries are collapsed.
    pub open spec fn area(self) -> int {
        self.width * self.height
    }
}

/// One on-screen window as reported by the snapshot provider for a single
/// tick: its title, rectangle, whether it is the foreground window, and
/// the window immediately above it in stacking order, if any.  The
/// predecessor reference is only a stacking anchor, never an identity.
pub struct LiveWindow {
    pub title: String,
    pub rect: Rect,
    pub is_foreground: bool,
    pub stack_predecessor: Option<i64>,
}

impl LiveWindow {
    pub open spec fn wf(self) -> bool {
        self.rect.wf()
    }
}

/// All windows of a snapshot have well-formed rectangles.
pub open spec fn snapshot_wf(snap: Seq<LiveWindow>) -> bool {
    forall|i: int| 0 <= i < snap.len() ==> (#[trigger] snap[i]).wf()
}

/// Builds a rectangle from left/top/right/bottom window bounds, as some
/// platform enumerations report them; width and height are the absolute
/// differences of the bounds.
pub fn rect_from_bounds(left: i32, top: i32, right: i32, bottom: i32) -> (r: Rect)
    ensures
        r.x == left as int,
        r.y == top as int,
        r.width == if right >= left {
            right - left
        } else {
            left - right
        },
        r.height == if bottom >= top {
            bottom - top
        } else {
            top - bottom
        },
        r.wf(),
{
    let l = left as i64;
    let t = top as i64;
    let rr = right as i64;
    let b = bottom as i64;
    Rect {
        x: l,
        y: t,
        width: if rr >= l {
            rr - l
        } else {
            l - rr
        },
        height: if b >= t {
            b - t
        } else {
            t - b
        },
    }
}

/// The snapshot with consecutive entries of equal title collapsed to the
/// one with the largest area, processed in order.
pub open spec fn spec_collapse(s: Seq<LiveWindow>) -> Seq<LiveWindow>
    decreases s.len(),
{
    if s.len() == 0 {
        Seq::empty()
    } else {
        let rest = spec_collapse(s.drop_last());
        if rest.len() > 0 && rest.last().title@ == s.last().title@ {
            if s.last().rect.area() > rest.last().rect.area() {
                rest.drop_last().push(s.last())
            } else {
                rest
            }
        } else {
            rest.push(s.last())
        }
    }
}

/// The rectangle's area as a machine value.
pub fn rect_area(r: &Rect) -> (a: u64)
    requires
        r.wf(),
    ensures
        a as int == r.area(),
{
    proof {
        assert(0 <= r.width <= (u32::MAX as int) && 0 <= r.height <= (u32::MAX as int) ==> 0
            <= r.width * r.height <= (u64::MAX as int)) by (nonlinear_arith);
    }
    (r.width as u64) * (r.height as u64)
}

/// Collapses duplicate raw entries: where several consecutive entries
/// carry the same title (as some window servers emit for a window and its
/// shadow layer), only the one with the largest bounding rectangle stays.
pub fn collapse_snapshot(raw: Vec<LiveWindow>) -> (r: Vec<LiveWindow>)
    requires
        snapshot_wf(raw@),
    ensures
        r@ == spec_collapse(raw@),
{
    let mut rest = raw;
    let ghost orig = rest@;
    let mut out: Vec<LiveWindow> = Vec::new();
    let ghost k: int = 0;
    while rest.len() > 0
        invariant
            0 <= k <= orig.len(),
            rest@ == orig.skip(k),
            out@ == spec_collapse(orig.take(k)),
            snapshot_wf(orig),
        decreases rest.len(),
    {
        let w = rest.remove(0);
        proof {
            assert(w == orig[k]);
            assert(orig.take(k + 1).drop_last() =~= orig.take(k));
            assert(orig.take(k + 1).last() == orig[k]);
            assert(orig.skip(k).skip(1) =~= orig.skip(k + 1));
            assert(orig[k].wf());
        }
        let out_len = out.len();
        if out_len > 0 && crate::utils::str_eq(
            out[out_len - 1].title.as_str(),
            w.title.as_str(),
        ) {
            proof {
                assert(out@[out_len - 1].wf()) by {
                    lemma_collapse_entries_wf(orig.take(k), out_len - 1);
                }
            }
            if rect_area(&w.rect) > rect_area(&out[out_len - 1].rect) {
                out.pop();
                out.push(w);
            }
        } else {
            out.push(w);
        }
        proof {
            k = k + 1;
        }
    }
    proof {
        assert(orig.take(orig.len() as int) =~= orig);
    }
    out
}

/// Every entry of a collapsed snapshot is one of the raw entries, so it
/// keeps their well-formedness.
proof fn lemma_collapse_entries_wf(s: Seq<LiveWindow>, i: int)
    requires
        snapshot_wf(s),
        0 <= i < spec_collapse(s).len(),
    ensures
        spec_collapse(s)[i].wf(),
    decreases s.len(),
{
    if s.len() > 0 {
        assert(snapshot_wf(s.drop_last())) by {
            assert(forall|j: int| 0 <= j < s.len() - 1 ==> s.drop_last()[j] == s[j]);
        }
        let rest = spec_collapse(s.drop_last());
        if rest.len() > 0 && rest.last().title@ == s.last().title@ {
            if s.last().rect.area() > rest.last().rect.area() {
                if i < rest.len() - 1 {
                    lemma_collapse_entries_wf(s.drop_last(), i);
                } else {
                    assert(spec_collapse(s)[i] == s.last());
                }
            } else {
                lemma_collapse_entries_wf(s.drop_last(), i);
            }
        } else {
            if i < rest.len() {
                lemma_collapse_entries_wf(s.drop_last(), i);
            } else {
                assert(spec_collapse(s)[i] == s.last());
            }
        }
    }
}

} // verus!
