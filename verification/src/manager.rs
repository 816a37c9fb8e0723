//! The overlay lifecycle manager: one reconciliation pass per heartbeat
//! tick.
//!
//! A pass walks the snapshot in order, matches each live window against
//! the rule set, updates the overlay that already serves a matched window
//! (front state edge-triggered, then geometry, then stacking), creates at
//! most one new overlay — the pass returns right after requesting the
//! creation, deferring other new windows to the next tick, which bounds
//! the per-tick native-window-creation cost to one — and, when it scanned
//! the whole snapshot without creating, destroys every overlay whose
//! target window no longer appears, back to front.

use vstd::prelude::*;
use crate::data_manager::DataManager;
use crate::data_manager::Target;
use crate::data_manager::has_wallpaper;
use crate::matching::first_match;
use crate::matching::match_target;
use crate::snapshot::LiveWindow;
use crate::snapshot::snapshot_wf;
use crate::utils::contains_sub;
use crate::utils::spec_contains;
use crate::utils::str_eq;
use crate::window::Action;
use crate::window::Window;
use smallvec::SmallVec;

verus! {

use vstd::string::StrSliceExecFns;

/// The buffer that records which overlays were seen during a pass: a
/// small inline vector, since almost every pass touches only a handful
/// of overlays.
#[verifier::external_body]
pub struct DoneBuf {
    items: SmallVec<[u64; 5]>,
}

/// What the done-buffer holds, in insertion order.
pub uninterp spec fn small_ids(v: DoneBuf) -> Seq<u64>;

/// Relies on SmallVec::new: a freshly created buffer holds nothing.
#[verifier::external_body]
fn done_new() -> (r: DoneBuf)
    ensures
        small_ids(r) == Seq::<u64>::empty(),
{
    DoneBuf { items: SmallVec::new() }
}

/// Relies on SmallVec::push: appends the value at the end, spilling to
/// the heap when the inline capacity is exceeded.
#[verifier::external_body]
fn done_push(v: &mut DoneBuf, x: u64)
    requires
        small_ids(*old(v)).len() < usize::MAX,
    ensures
        small_ids(*final(v)) == small_ids(*old(v)).push(x),
{
    v.items.push(x);
}

/// Relies on slice::contains through SmallVec's deref: whether some held
/// value equals the given one.
#[verifier::external_body]
fn done_contains(v: &DoneBuf, x: u64) -> (r: bool)
    ensures
        r == small_ids(*v).contains(x),
{
    v.items.contains(&x)
}

/// Membership in a pushed sequence: the old members and the new value.
proof fn lemma_push_contains(s: Seq<u64>, x: u64, y: u64)
    ensures
        s.push(x).contains(y) <==> (s.contains(y) || y == x),
{
    if s.push(x).contains(y) {
        let i = choose|i: int| 0 <= i < s.push(x).len() && s.push(x)[i] == y;
        if i < s.len() {
            assert(s[i] == y);
        }
    }
    if s.contains(y) {
        let i = choose|i: int| 0 <= i < s.len() && s[i] == y;
        assert(s.push(x)[i] == y);
    }
    if y == x {
        assert(s.push(x)[s.len() as int] == y);
    }
}

/// Servedness is a property of the overlay's key alone.
proof fn lemma_served_same_key(
    a: Window,
    b: Window,
    rules: Seq<Target>,
    dev: bool,
    snap: Seq<LiveWindow>,
)
    requires
        a.wallpaper@ == b.wallpaper@,
        a.target@ == b.target@,
    ensures
        served(a, rules, dev, snap) == served(b, rules, dev, snap),
{
    if served(a, rules, dev, snap) {
        let i = choose|i: int| 0 <= i < snap.len() && serves(#[trigger] snap[i], a, rules, dev);
        assert(serves(snap[i], b, rules, dev));
    }
    if served(b, rules, dev, snap) {
        let i = choose|i: int| 0 <= i < snap.len() && serves(#[trigger] snap[i], b, rules, dev);
        assert(serves(snap[i], a, rules, dev));
    }
}

/// Serving one more window extends servedness by exactly that window.
proof fn lemma_served_extend(
    ov: Window,
    rules: Seq<Target>,
    dev: bool,
    snap: Seq<LiveWindow>,
    j: int,
)
    requires
        0 <= j < snap.len(),
    ensures
        served(ov, rules, dev, snap.take(j + 1)) <==> (served(ov, rules, dev, snap.take(j))
            || serves(snap[j], ov, rules, dev)),
{
    if served(ov, rules, dev, snap.take(j + 1)) {
        let i = choose|i: int|
            0 <= i < snap.take(j + 1).len() && serves(#[trigger] snap.take(j + 1)[i], ov, rules, dev);
        if i < j {
            assert(snap.take(j as int)[i] == snap.take(j + 1)[i]);
        } else {
            assert(snap.take(j + 1)[j] == snap[j]);
        }
    }
    if served(ov, rules, dev, snap.take(j as int)) {
        let i = choose|i: int|
            0 <= i < snap.take(j as int).len() && serves(#[trigger] snap.take(j as int)[i], ov, rules, dev);
        assert(snap.take(j + 1)[i] == snap.take(j as int)[i]);
        assert(serves(snap.take(j + 1)[i], ov, rules, dev));
    }
    if serves(snap[j], ov, rules, dev) {
        assert(snap.take(j + 1)[j] == snap[j]);
        assert(serves(snap.take(j + 1)[j], ov, rules, dev));
    }
}

/// An engine operation was refused; the caller reports it and goes on.
#[derive(Debug)]
pub enum EngineError {
    /// A matched rule references a wallpaper profile that the store no
    /// longer holds; the pass aborts and the next tick retries.
    WallpaperNotFound { name: String },
    /// The requested interface language is not a supported one.
    UnknownLanguage,
}

/// Data carried by a settings-bridge request.
pub struct RequestData {
    pub uri: String,
    pub body: String,
}

/// A response handed back to the settings bridge.
pub struct CallbackResponse<'a> {
    pub status: &'a str,
    pub body: String,
}

/// Events the owning control loop processes: a bridge request, a
/// completed file selection, and the heartbeat tick.
pub enum UserEvents {
    Request(RequestData),
    FileSelected(String),
    PassedInterval(),
}

/// The settings bridge forwards a request to the API handler exactly
/// when its URI starts with the API scheme prefix; anything else is
/// served as a file.
pub fn is_api_request(uri: &str) -> (r: bool)
    ensures
        r == (uri@.len() >= 10 && uri@.subrange(0, 10) == "wry://api/"@),
{
    let n = uri.unicode_len();
    if n < 10 {
        return false;
    }
    let p = uri.substring_char(0, 10);
    str_eq(p, "wry://api/")
}

/// Windows whose title carries the application's own marker are never
/// matched; with the developer flag set, inspector windows are skipped
/// too, lest an overlay be put on the overlay's own devtools.
pub open spec fn skip_title(title: Seq<char>, dev: bool) -> bool {
    spec_contains(title, "FreedomWall"@) || (dev && spec_contains(title, "DevTools"@))
}

/// The live window is matched by the rule and the overlay is its server:
/// same wallpaper profile and exactly its title.
pub open spec fn serves(w: LiveWindow, ov: Window, rules: Seq<Target>, dev: bool) -> bool {
    &&& !skip_title(w.title@, dev)
    &&& match first_match(w.title@, rules) {
        Some(r) => rules[r].wallpaper@ == ov.wallpaper@ && w.title@ == ov.target@,
        None => false,
    }
}

/// Some window of the snapshot serves the overlay.
pub open spec fn served(ov: Window, rules: Seq<Target>, dev: bool, snap: Seq<LiveWindow>) -> bool {
    exists|i: int| 0 <= i < snap.len() && serves(#[trigger] snap[i], ov, rules, dev)
}

/// The front state of an overlay after the given processed prefix of the
/// snapshot: the foreground state of the last window that served it, or
/// its previous state when none did.
pub open spec fn pass_front(
    ov: Window,
    rules: Seq<Target>,
    dev: bool,
    processed: Seq<LiveWindow>,
) -> bool
    decreases processed.len(),
{
    if processed.len() == 0 {
        ov.front
    } else if serves(processed.last(), ov, rules, dev) {
        processed.last().is_foreground
    } else {
        pass_front(ov, rules, dev, processed.drop_last())
    }
}

/// The owned overlays after the first `upto` snapshot windows have been
/// processed: membership and order unchanged, front states updated.
pub open spec fn pass_windows(
    ovs: Seq<Window>,
    rules: Seq<Target>,
    dev: bool,
    snap: Seq<LiveWindow>,
    upto: int,
) -> Seq<Window> {
    Seq::new(
        ovs.len(),
        |k: int| Window { front: pass_front(ovs[k], rules, dev, snap.take(upto)), ..ovs[k] },
    )
}

/// Index of the first overlay serving the given profile and target title.
pub open spec fn find_overlay(ovs: Seq<Window>, profile: Seq<char>, title: Seq<char>) -> Option<
    int,
>
    decreases ovs.len(),
{
    if ovs.len() == 0 {
        None
    } else if ovs[0].wallpaper@ == profile && ovs[0].target@ == title {
        Some(0int)
    } else {
        match find_overlay(ovs.skip(1), profile, title) {
            None => None,
            Some(j) => Some(j + 1),
        }
    }
}

/// What `find_overlay` finds is the first overlay with that key.
pub proof fn lemma_find_overlay(ovs: Seq<Window>, profile: Seq<char>, title: Seq<char>)
    ensures
        match find_overlay(ovs, profile, title) {
            Some(i) => 0 <= i < ovs.len() && ovs[i].wallpaper@ == profile && ovs[i].target@
                == title && (forall|j: int|
                0 <= j < i ==> !(ovs[j].wallpaper@ == profile && ovs[j].target@ == title)),
            None => forall|j: int|
                0 <= j < ovs.len() ==> !(ovs[j].wallpaper@ == profile && ovs[j].target@ == title),
        },
    decreases ovs.len(),
{
    if ovs.len() > 0 {
        lemma_find_overlay(ovs.skip(1), profile, title);
        assert(forall|k: int| 1 <= k < ovs.len() ==> ovs[k] == ovs.skip(1)[k - 1]);
    }
}

/// Two overlay sequences with pointwise equal keys are searched alike.
pub proof fn lemma_find_overlay_same_keys(
    a: Seq<Window>,
    b: Seq<Window>,
    profile: Seq<char>,
    title: Seq<char>,
)
    requires
        a.len() == b.len(),
        forall|k: int|
            0 <= k < a.len() ==> (#[trigger] a[k]).wallpaper@ == b[k].wallpaper@ && a[k].target@
                == b[k].target@,
    ensures
        find_overlay(a, profile, title) == find_overlay(b, profile, title),
    decreases a.len(),
{
    if a.len() > 0 {
        assert(forall|k: int| 0 <= k < a.len() - 1 ==> a.skip(1)[k] == a[k + 1]);
        assert(forall|k: int| 0 <= k < b.len() - 1 ==> b.skip(1)[k] == b[k + 1]);
        lemma_find_overlay_same_keys(a.skip(1), b.skip(1), profile, title);
    }
}

/// The live window is eligible, matched by some rule, and no owned
/// overlay serves it yet: processing it would create an overlay.
pub open spec fn is_new_match(
    ovs: Seq<Window>,
    rules: Seq<Target>,
    dev: bool,
    w: LiveWindow,
) -> bool {
    &&& !skip_title(w.title@, dev)
    &&& match first_match(w.title@, rules) {
        Some(r) => find_overlay(ovs, rules[r].wallpaper@, w.title@).is_none(),
        None => false,
    }
}

/// Index of the first snapshot window that would create an overlay.
pub open spec fn creation_point(
    ovs: Seq<Window>,
    rules: Seq<Target>,
    dev: bool,
    snap: Seq<LiveWindow>,
) -> Option<int>
    decreases snap.len(),
{
    if snap.len() == 0 {
        None
    } else if is_new_match(ovs, rules, dev, snap[0]) {
        Some(0int)
    } else {
        match creation_point(ovs, rules, dev, snap.skip(1)) {
            None => None,
            Some(j) => Some(j + 1),
        }
    }
}

/// What `creation_point` finds is the first newly matching window.
pub proof fn lemma_creation_point(
    ovs: Seq<Window>,
    rules: Seq<Target>,
    dev: bool,
    snap: Seq<LiveWindow>,
)
    ensures
        match creation_point(ovs, rules, dev, snap) {
            Some(i) => 0 <= i < snap.len() && is_new_match(ovs, rules, dev, snap[i]) && (forall|
                j: int,
            | 0 <= j < i ==> !is_new_match(ovs, rules, dev, snap[j])),
            None => forall|j: int| 0 <= j < snap.len() ==> !is_new_match(ovs, rules, dev, snap[j]),
        },
    decreases snap.len(),
{
    if snap.len() > 0 {
        lemma_creation_point(ovs, rules, dev, snap.skip(1));
        assert(forall|k: int| 1 <= k < snap.len() ==> snap[k] == snap.skip(1)[k - 1]);
    }
}

/// A window that would create an overlay makes the pass create one.
pub proof fn lemma_new_match_creates(
    ovs: Seq<Window>,
    rules: Seq<Target>,
    dev: bool,
    snap: Seq<LiveWindow>,
    i: int,
)
    requires
        0 <= i < snap.len(),
        is_new_match(ovs, rules, dev, snap[i]),
    ensures
        creation_point(ovs, rules, dev, snap).is_some(),
{
    lemma_creation_point(ovs, rules, dev, snap);
    if creation_point(ovs, rules, dev, snap).is_none() {
        assert(!is_new_match(ovs, rules, dev, snap[i]));
    }
}

/// The actions emitted while processing snapshot window `j`, given that
/// the windows before it have been processed: a front toggle only on a
/// state change, then the geometry update, then — only while not pinned
/// front and a stacking anchor exists — the restack.
pub open spec fn acts_for_window(
    ovs: Seq<Window>,
    rules: Seq<Target>,
    dev: bool,
    snap: Seq<LiveWindow>,
    j: int,
) -> Seq<Action> {
    let w = snap[j];
    if !skip_title(w.title@, dev) {
        match first_match(w.title@, rules) {
            Some(r) => match find_overlay(ovs, rules[r].wallpaper@, w.title@) {
                Some(x) => {
                    let ov = ovs[x];
                    let before = pass_front(ov, rules, dev, snap.take(j));
                    (if w.is_foreground != before {
                        seq![Action::SetFront { id: ov.id, front: w.is_foreground }]
                    } else {
                        Seq::<Action>::empty()
                    }) + seq![
                        Action::SetRect {
                            id: ov.id,
                            x: (w.rect.x + rules[r].shift.left) as i64,
                            y: (w.rect.y + rules[r].shift.up) as i64,
                            width: (w.rect.width + rules[r].shift.right) as i64,
                            height: (w.rect.height + rules[r].shift.down) as i64,
                        },
                    ] + (if !w.is_foreground && w.stack_predecessor.is_some() {
                        seq![
                            Action::SetOrder {
                                id: ov.id,
                                predecessor: w.stack_predecessor.unwrap(),
                            },
                        ]
                    } else {
                        Seq::<Action>::empty()
                    })
                },
                None => Seq::empty(),
            },
            None => Seq::empty(),
        }
    } else {
        Seq::empty()
    }
}

/// All actions emitted while processing the first `upto` snapshot
/// windows, in order.
pub open spec fn pass_acts(
    ovs: Seq<Window>,
    rules: Seq<Target>,
    dev: bool,
    snap: Seq<LiveWindow>,
    upto: int,
) -> Seq<Action>
    decreases upto,
{
    if upto <= 0 {
        Seq::empty()
    } else {
        pass_acts(ovs, rules, dev, snap, upto - 1) + acts_for_window(ovs, rules, dev, snap, upto - 1)
    }
}

/// The overlays that survive cleanup: exactly the served ones, in order.
pub open spec fn keep_served(
    ovs: Seq<Window>,
    rules: Seq<Target>,
    dev: bool,
    snap: Seq<LiveWindow>,
) -> Seq<Window>
    decreases ovs.len(),
{
    if ovs.len() == 0 {
        Seq::empty()
    } else {
        (if served(ovs[0], rules, dev, snap) {
            seq![ovs[0]]
        } else {
            Seq::<Window>::empty()
        }) + keep_served(ovs.skip(1), rules, dev, snap)
    }
}

/// The destroy requests of cleanup: one for each unserved overlay among
/// the first `upto`, highest index first.
pub open spec fn destroy_acts(
    ovs: Seq<Window>,
    rules: Seq<Target>,
    dev: bool,
    snap: Seq<LiveWindow>,
    upto: int,
) -> Seq<Action>
    decreases upto,
{
    if upto <= 0 {
        Seq::empty()
    } else {
        (if !served(ovs[upto - 1], rules, dev, snap) {
            seq![Action::Destroy { id: ovs[upto - 1].id }]
        } else {
            Seq::<Action>::empty()
        }) + destroy_acts(ovs, rules, dev, snap, upto - 1)
    }
}

/// The destroy requests of a full reset: every overlay, highest index
/// first.
pub open spec fn all_destroys(ovs: Seq<Window>) -> Seq<Action>
    decreases ovs.len(),
{
    if ovs.len() == 0 {
        Seq::empty()
    } else {
        seq![Action::Destroy { id: ovs.last().id }] + all_destroys(ovs.drop_last())
    }
}

/// The actions that accompany the creation of overlay `id`: build the
/// native window, make it click-through unless in developer mode, and
/// apply its opacity.
pub open spec fn create_acts(id: u64, alpha: u32, dev: bool) -> Seq<Action> {
    seq![Action::Create { id }] + (if !dev {
        seq![Action::SetClickThrough { id, on: true }]
    } else {
        Seq::<Action>::empty()
    }) + seq![Action::SetTransparent { id, alpha }]
}

/// No two overlays share a (profile, target) key, ids are pairwise
/// distinct, and every id is below the next sequence number.
pub open spec fn overlays_wf(ovs: Seq<Window>, count: u64) -> bool {
    &&& forall|i: int, j: int|
        0 <= i < j < ovs.len() ==> !((#[trigger] ovs[i]).wallpaper@ == (
        #[trigger] ovs[j]).wallpaper@ && ovs[i].target@ == ovs[j].target@)
    &&& forall|i: int, j: int|
        0 <= i < j < ovs.len() ==> (#[trigger] ovs[i]).id != (#[trigger] ovs[j]).id
    &&& forall|i: int| 0 <= i < ovs.len() ==> (#[trigger] ovs[i]).id < count
}

/// Cleanup on disappearance: an overlay whose target title appears
/// nowhere in the snapshot does not survive a pass that scanned the whole
/// snapshot — no surviving overlay carries its id.
pub proof fn lemma_cleanup_on_disappearance(
    ovs: Seq<Window>,
    rules: Seq<Target>,
    dev: bool,
    snap: Seq<LiveWindow>,
    count: u64,
    q: int,
)
    requires
        overlays_wf(ovs, count),
        0 <= q < ovs.len(),
        forall|w: int| 0 <= w < snap.len() ==> (#[trigger] snap[w]).title@ != ovs[q].target@,
    ensures
        ({
            let survivors = keep_served(
                pass_windows(ovs, rules, dev, snap, snap.len() as int),
                rules,
                dev,
                snap,
            );
            forall|p: int|
                0 <= p < survivors.len() ==> (#[trigger] survivors[p]).id != ovs[q].id
        }),
{
    let scanned = pass_windows(ovs, rules, dev, snap, snap.len() as int);
    let survivors = keep_served(scanned, rules, dev, snap);
    lemma_keep_served_sub(scanned, rules, dev, snap);
    assert forall|p: int| 0 <= p < survivors.len() implies (#[trigger] survivors[p]).id
        != ovs[q].id by {
        let q2 = choose|x: int|
            0 <= x < scanned.len() && survivors[p] == #[trigger] scanned[x] && served(
                scanned[x],
                rules,
                dev,
                snap,
            );
        if survivors[p].id == ovs[q].id {
            assert(scanned[q2].id == ovs[q2].id);
            assert(q2 == q);
            assert(served(scanned[q], rules, dev, snap));
            let w = choose|i: int|
                0 <= i < snap.len() && serves(#[trigger] snap[i], scanned[q], rules, dev);
            assert(snap[w].title@ == scanned[q].target@);
            assert(scanned[q].target@ == ovs[q].target@);
        }
    }
}

/// Idempotence of update: after a pass over a snapshot that created
/// nothing (every matched window already had its overlay), a second pass
/// over the same snapshot and rules creates nothing and destroys
/// nothing — the owned overlay count and identities are unchanged.
pub proof fn lemma_pass_idempotent(
    ovs: Seq<Window>,
    rules: Seq<Target>,
    dev: bool,
    snap: Seq<LiveWindow>,
    count: u64,
)
    requires
        overlays_wf(ovs, count),
        creation_point(ovs, rules, dev, snap).is_none(),
    ensures
        ({
            let once = keep_served(
                pass_windows(ovs, rules, dev, snap, snap.len() as int),
                rules,
                dev,
                snap,
            );
            let twice = keep_served(
                pass_windows(once, rules, dev, snap, snap.len() as int),
                rules,
                dev,
                snap,
            );
            &&& creation_point(once, rules, dev, snap).is_none()
            &&& twice.len() == once.len()
            &&& forall|p: int|
                0 <= p < once.len() ==> (#[trigger] twice[p]).id == once[p].id && twice[p].wallpaper@
                    == once[p].wallpaper@ && twice[p].target@ == once[p].target@
        }),
{
    let scanned1 = pass_windows(ovs, rules, dev, snap, snap.len() as int);
    let once = keep_served(scanned1, rules, dev, snap);
    let scanned2 = pass_windows(once, rules, dev, snap, snap.len() as int);
    let twice = keep_served(scanned2, rules, dev, snap);
    lemma_keep_served_sub(scanned1, rules, dev, snap);
    lemma_creation_point(ovs, rules, dev, snap);

    // Every element of `once` is served, and servedness depends only on
    // the overlay's key, which the second scan keeps.
    assert forall|p: int| 0 <= p < scanned2.len() implies served(
        #[trigger] scanned2[p],
        rules,
        dev,
        snap,
    ) by {
        let x = choose|x: int|
            0 <= x < scanned1.len() && once[p] == #[trigger] scanned1[x] && served(
                scanned1[x],
                rules,
                dev,
                snap,
            );
        assert(served(once[p], rules, dev, snap));
        let i = choose|i: int|
            0 <= i < snap.len() && serves(#[trigger] snap[i], once[p], rules, dev);
        assert(scanned2[p].wallpaper@ == once[p].wallpaper@ && scanned2[p].target@
            == once[p].target@);
        assert(serves(snap[i], scanned2[p], rules, dev));
    }
    lemma_keep_served_all(scanned2, rules, dev, snap);

    // No window newly matches against the survivors: whatever matched
    // before was served, and its server's overlay survived with its key.
    assert forall|j: int| 0 <= j < snap.len() implies !is_new_match(
        once,
        rules,
        dev,
        #[trigger] snap[j],
    ) by {
        assert(!is_new_match(ovs, rules, dev, snap[j]));
        if !skip_title(snap[j].title@, dev) {
            match first_match(snap[j].title@, rules) {
                Some(r) => {
                    lemma_find_overlay(ovs, rules[r].wallpaper@, snap[j].title@);
                    let idx = find_overlay(ovs, rules[r].wallpaper@, snap[j].title@).unwrap();
                    assert(serves(snap[j], ovs[idx], rules, dev));
                    assert(scanned1[idx].wallpaper@ == ovs[idx].wallpaper@ && scanned1[idx].target@
                        == ovs[idx].target@);
                    assert(serves(snap[j], scanned1[idx], rules, dev));
                    assert(served(scanned1[idx], rules, dev, snap));
                    lemma_keep_served_keeps(scanned1, rules, dev, snap, idx);
                    let p = choose|p: int|
                        0 <= p < once.len() && #[trigger] once[p] == scanned1[idx];
                    lemma_find_overlay(once, rules[r].wallpaper@, snap[j].title@);
                    if find_overlay(once, rules[r].wallpaper@, snap[j].title@).is_none() {
                        assert(!(once[p].wallpaper@ == rules[r].wallpaper@ && once[p].target@
                            == snap[j].title@));
                    }
                },
                None => {},
            }
        }
    }
    lemma_creation_point(once, rules, dev, snap);
    match creation_point(once, rules, dev, snap) {
        Some(c) => {
            assert(!is_new_match(once, rules, dev, snap[c]));
        },
        None => {},
    }
}

/// No action of the sequence is a front toggle.
pub open spec fn no_front_acts(s: Seq<Action>) -> bool {
    forall|p: int| 0 <= p < s.len() ==> !((#[trigger] s[p]) is SetFront)
}

/// An overlay with exactly one serving window in the snapshot ends a
/// processed prefix pinned like that window — or unchanged while the
/// prefix stops short of it.
proof fn lemma_pass_front_unique_server(
    ov: Window,
    rules: Seq<Target>,
    dev: bool,
    snap: Seq<LiveWindow>,
    j: int,
    m: int,
)
    requires
        0 <= j < snap.len(),
        serves(snap[j], ov, rules, dev),
        forall|i: int| 0 <= i < snap.len() && i != j ==> !serves(#[trigger] snap[i], ov, rules, dev),
        0 <= m <= snap.len(),
    ensures
        pass_front(ov, rules, dev, snap.take(m)) == if j < m {
            snap[j].is_foreground
        } else {
            ov.front
        },
    decreases m,
{
    if m > 0 {
        assert(snap.take(m).last() == snap[m - 1]);
        assert(snap.take(m).drop_last() =~= snap.take(m - 1));
        lemma_pass_front_unique_server(ov, rules, dev, snap, j, m - 1);
    }
}

/// Front-state edge triggering at the pass level: over a steady
/// snapshot — each title occurring once and every matched window already
/// served — the pass that follows a completed pass emits no front
/// toggle at all: the one toggle happened on the tick of the transition.
pub proof fn lemma_front_edge_triggered(
    ovs: Seq<Window>,
    rules: Seq<Target>,
    dev: bool,
    snap: Seq<LiveWindow>,
    count: u64,
)
    requires
        overlays_wf(ovs, count),
        creation_point(ovs, rules, dev, snap).is_none(),
        forall|a: int, b: int|
            0 <= a < b < snap.len() ==> (#[trigger] snap[a]).title@ != (#[trigger] snap[b]).title@,
    ensures
        ({
            let once = keep_served(
                pass_windows(ovs, rules, dev, snap, snap.len() as int),
                rules,
                dev,
                snap,
            );
            no_front_acts(pass_acts(once, rules, dev, snap, snap.len() as int))
        }),
{
    let scanned1 = pass_windows(ovs, rules, dev, snap, snap.len() as int);
    let once = keep_served(scanned1, rules, dev, snap);
    lemma_pass_idempotent(ovs, rules, dev, snap, count);
    lemma_creation_point(once, rules, dev, snap);
    lemma_keep_served_sub(scanned1, rules, dev, snap);

    assert forall|j: int| 0 <= j < snap.len() implies no_front_acts(
        acts_for_window(once, rules, dev, snap, j),
    ) by {
        let w = snap[j];
        if !skip_title(w.title@, dev) {
            match first_match(w.title@, rules) {
                Some(r) => {
                    assert(!is_new_match(once, rules, dev, snap[j]));
                    lemma_find_overlay(once, rules[r].wallpaper@, w.title@);
                    match find_overlay(once, rules[r].wallpaper@, w.title@) {
                        Some(idx2) => {
                            let ov2 = once[idx2];
                            assert(serves(snap[j], ov2, rules, dev));
                            assert forall|i: int|
                                0 <= i < snap.len() && i != j implies !serves(
                                #[trigger] snap[i],
                                ov2,
                                rules,
                                dev,
                            ) by {
                                if serves(snap[i], ov2, rules, dev) {
                                    assert(snap[i].title@ == ov2.target@);
                                    assert(snap[j].title@ == ov2.target@);
                                }
                            }
                            lemma_pass_front_unique_server(ov2, rules, dev, snap, j, j);
                            assert(pass_front(ov2, rules, dev, snap.take(j)) == ov2.front);
                            let x = choose|x: int|
                                0 <= x < scanned1.len() && once[idx2] == #[trigger] scanned1[x]
                                    && served(scanned1[x], rules, dev, snap);
                            assert(scanned1[x].front == pass_front(
                                ovs[x],
                                rules,
                                dev,
                                snap.take(snap.len() as int),
                            ));
                            assert(serves(snap[j], ovs[x], rules, dev)) by {
                                assert(ovs[x].wallpaper@ == scanned1[x].wallpaper@ && ovs[x].target@
                                    == scanned1[x].target@);
                            }
                            assert forall|i: int|
                                0 <= i < snap.len() && i != j implies !serves(
                                #[trigger] snap[i],
                                ovs[x],
                                rules,
                                dev,
                            ) by {
                                if serves(snap[i], ovs[x], rules, dev) {
                                    assert(snap[i].title@ == ovs[x].target@);
                                    assert(snap[j].title@ == ovs[x].target@);
                                }
                            }
                            lemma_pass_front_unique_server(
                                ovs[x],
                                rules,
                                dev,
                                snap,
                                j,
                                snap.len() as int,
                            );
                            assert(snap.take(snap.len() as int) =~= snap);
                            assert(ov2.front == snap[j].is_foreground);
                            let acts = acts_for_window(once, rules, dev, snap, j);
                            assert forall|p: int| 0 <= p < acts.len() implies !((
                            #[trigger] acts[p]) is SetFront) by {}
                        },
                        None => {
                            assert(is_new_match(once, rules, dev, snap[j]));
                        },
                    }
                },
                None => {},
            }
        }
    }

    assert forall|u: int| 0 <= u <= snap.len() implies no_front_acts(
        pass_acts(once, rules, dev, snap, u),
    ) by {
        lemma_pass_acts_no_front(once, rules, dev, snap, u);
    }
}

/// When no window's processing emits a front toggle, the whole pass
/// emits none.
proof fn lemma_pass_acts_no_front(
    ovs: Seq<Window>,
    rules: Seq<Target>,
    dev: bool,
    snap: Seq<LiveWindow>,
    upto: int,
)
    requires
        upto <= snap.len(),
        forall|j: int|
            0 <= j < snap.len() ==> no_front_acts(#[trigger] acts_for_window(
                ovs,
                rules,
                dev,
                snap,
                j,
            )),
    ensures
        no_front_acts(pass_acts(ovs, rules, dev, snap, upto)),
    decreases upto,
{
    if upto > 0 {
        lemma_pass_acts_no_front(ovs, rules, dev, snap, upto - 1);
        let a = pass_acts(ovs, rules, dev, snap, upto - 1);
        let b = acts_for_window(ovs, rules, dev, snap, upto - 1);
        assert forall|p: int| 0 <= p < (a + b).len() implies !((#[trigger] (a + b)[p])
            is SetFront) by {
            if p < a.len() {
                assert((a + b)[p] == a[p]);
            } else {
                assert((a + b)[p] == b[p - a.len()]);
            }
        }
    }
}

/// At most one new overlay per pass, and each pass makes progress: the
/// overlay a pass appends serves its newly matched window from then on,
/// and no window that was already served becomes unserved by the
/// creation — so N simultaneously new windows converge in N passes, one
/// creation each.
pub proof fn lemma_creation_progress(
    ovs: Seq<Window>,
    rules: Seq<Target>,
    dev: bool,
    snap: Seq<LiveWindow>,
    nw: Window,
)
    requires
        creation_point(ovs, rules, dev, snap).is_some(),
        ({
            let i = creation_point(ovs, rules, dev, snap).unwrap();
            let r = first_match(snap[i].title@, rules).unwrap();
            nw.wallpaper@ == rules[r].wallpaper@ && nw.target@ == snap[i].title@
        }),
    ensures
        ({
            let i = creation_point(ovs, rules, dev, snap).unwrap();
            let after = pass_windows(ovs, rules, dev, snap, i).push(nw);
            &&& !is_new_match(after, rules, dev, snap[i])
            &&& forall|j: int|
                0 <= j < snap.len() && !is_new_match(ovs, rules, dev, #[trigger] snap[j])
                    ==> !is_new_match(after, rules, dev, snap[j])
        }),
{
    lemma_creation_point(ovs, rules, dev, snap);
    let i = creation_point(ovs, rules, dev, snap).unwrap();
    let scanned = pass_windows(ovs, rules, dev, snap, i);
    let after = scanned.push(nw);
    assert(after[ovs.len() as int] == nw);
    let r = first_match(snap[i].title@, rules).unwrap();
    lemma_find_overlay(after, rules[r].wallpaper@, snap[i].title@);
    if find_overlay(after, rules[r].wallpaper@, snap[i].title@).is_none() {
        assert(!(after[ovs.len() as int].wallpaper@ == rules[r].wallpaper@
            && after[ovs.len() as int].target@ == snap[i].title@));
    }
    assert forall|j: int|
        0 <= j < snap.len() && !is_new_match(ovs, rules, dev, #[trigger] snap[j]) implies !is_new_match(
        after,
        rules,
        dev,
        snap[j],
    ) by {
        if !skip_title(snap[j].title@, dev) {
            match first_match(snap[j].title@, rules) {
                Some(rj) => {
                    lemma_find_overlay(ovs, rules[rj].wallpaper@, snap[j].title@);
                    let idx = find_overlay(ovs, rules[rj].wallpaper@, snap[j].title@).unwrap();
                    assert(after[idx].wallpaper@ == ovs[idx].wallpaper@ && after[idx].target@
                        == ovs[idx].target@);
                    lemma_find_overlay(after, rules[rj].wallpaper@, snap[j].title@);
                    if find_overlay(after, rules[rj].wallpaper@, snap[j].title@).is_none() {
                        assert(!(after[idx].wallpaper@ == rules[rj].wallpaper@ && after[idx].target@
                            == snap[j].title@));
                    }
                },
                None => {},
            }
        }
    }
}

/// When a window newly matches and no earlier one does, it is the
/// creation point.
pub proof fn lemma_creation_at(
    ovs: Seq<Window>,
    rules: Seq<Target>,
    dev: bool,
    snap: Seq<LiveWindow>,
    i: int,
)
    requires
        0 <= i < snap.len(),
        is_new_match(ovs, rules, dev, snap[i]),
        forall|j: int| 0 <= j < i ==> !is_new_match(ovs, rules, dev, snap[j]),
    ensures
        creation_point(ovs, rules, dev, snap) == Some(i),
{
    lemma_creation_point(ovs, rules, dev, snap);
    match creation_point(ovs, rules, dev, snap) {
        Some(k) => {
            if k < i {
                assert(!is_new_match(ovs, rules, dev, snap[k]));
            } else if k > i {
                assert(!is_new_match(ovs, rules, dev, snap[i]));
            }
        },
        None => {
            assert(!is_new_match(ovs, rules, dev, snap[i]));
        },
    }
}

/// Finds the first snapshot window that is eligible, governed by a rule,
/// and not yet served by any owned overlay, together with its rule.
fn find_creation(
    windows: &Vec<Window>,
    rules: &Vec<Target>,
    dev: bool,
    snapshot: &Vec<LiveWindow>,
) -> (r: Option<(usize, usize)>)
    ensures
        match r {
            Some((i, ri)) => creation_point(windows@, rules@, dev, snapshot@) == Some(i as int)
                && first_match(snapshot@[i as int].title@, rules@) == Some(ri as int),
            None => creation_point(windows@, rules@, dev, snapshot@).is_none(),
        },
{
    let n = snapshot.len();
    let mut i: usize = 0;
    while i < n
        invariant
            n == snapshot@.len(),
            i <= n,
            forall|j: int| 0 <= j < i ==> !is_new_match(windows@, rules@, dev, snapshot@[j]),
        decreases n - i,
    {
        let title = snapshot[i].title.as_str();
        if !title_skipped(title, dev) {
            match match_target(title, rules) {
                Some(ri) => {
                    proof {
                        crate::matching::lemma_first_match(title@, rules@);
                    }
                    let profile = rules[ri].wallpaper.as_str();
                    match find_window(windows, profile, title) {
                        Some(_) => {},
                        None => {
                            proof {
                                assert(is_new_match(windows@, rules@, dev, snapshot@[i as int]));
                                lemma_creation_at(windows@, rules@, dev, snapshot@, i as int);
                            }
                            return Some((i, ri));
                        },
                    }
                },
                None => {},
            }
        }
        i = i + 1;
    }
    proof {
        lemma_creation_point(windows@, rules@, dev, snapshot@);
    }
    None
}

/// The overlay lifecycle manager: the owned overlay set, the data store,
/// and the monotonic sequence-id source.
pub struct Manager {
    pub windows: Vec<Window>,
    pub data: DataManager,
    pub count: u64,
}

impl Manager {
    /// The uniqueness invariant of the owned overlay set.
    pub open spec fn wf(self) -> bool {
        overlays_wf(self.windows@, self.count)
    }

    /// Creates a fresh manager around the given store, owning no overlay.
    pub fn new(data: DataManager) -> (r: Manager)
        ensures
            r.wf(),
            r.windows@.len() == 0,
            r.data == data,
            r.count == 0,
    {
        Manager { windows: Vec::new(), data, count: 0 }
    }

    /// Appends a new overlay for the given profile and target title and
    /// requests its construction; the overlay gets the next sequence id,
    /// starts unpinned, and is click-through unless in developer mode.
    pub fn add(&mut self, wallpaper: String, alpha: u32, target: String) -> (acts: Vec<Action>)
        requires
            old(self).wf(),
            old(self).count < u64::MAX,
            find_overlay(old(self).windows@, wallpaper@, target@).is_none(),
        ensures
            final(self).wf(),
            final(self).windows@ == old(self).windows@.push(
                Window {
                    wallpaper,
                    target,
                    front: false,
                    id: old(self).count,
                    alpha,
                    click_through: !old(self).data.general.dev,
                },
            ),
            final(self).count == old(self).count + 1,
            final(self).data == old(self).data,
            acts@ == create_acts(old(self).count, alpha, old(self).data.general.dev),
    {
        proof {
            lemma_find_overlay(self.windows@, wallpaper@, target@);
        }
        let id = self.count;
        let dev = self.data.general.dev;
        let mut w = Window { wallpaper, target, front: false, id, alpha, click_through: false };
        let mut acts: Vec<Action> = Vec::new();
        acts.push(Action::Create { id });
        if !dev {
            let a = w.set_click_through(true);
            acts.push(a);
        }
        let a2 = w.set_transparent(alpha);
        acts.push(a2);
        proof {
            assert(acts@ =~= create_acts(id, alpha, dev));
        }
        self.windows.push(w);
        self.count = self.count + 1;
        acts
    }

    /// Destroys the overlay at the given index and removes it from the
    /// owned set.
    pub fn remove(&mut self, index: usize) -> (r: Action)
        requires
            old(self).wf(),
            index < old(self).windows@.len(),
        ensures
            final(self).wf(),
            final(self).windows@ == old(self).windows@.remove(index as int),
            r == (Action::Destroy { id: old(self).windows@[index as int].id }),
            final(self).data == old(self).data,
            final(self).count == old(self).count,
    {
        let id = self.windows[index].id;
        self.windows.remove(index);
        proof {
            assert(forall|a: int|
                0 <= a < self.windows@.len() ==> #[trigger] self.windows@[a] == if a < index {
                    old(self).windows@[a]
                } else {
                    old(self).windows@[a + 1]
                });
        }
        Action::Destroy { id }
    }

    /// Destroys every owned overlay unconditionally, back to front; safe
    /// to call at any time.
    pub fn reset_windows(&mut self) -> (acts: Vec<Action>)
        requires
            old(self).wf(),
        ensures
            final(self).wf(),
            final(self).windows@.len() == 0,
            acts@ == all_destroys(old(self).windows@),
            final(self).data == old(self).data,
            final(self).count == old(self).count,
    {
        let mut acts: Vec<Action> = Vec::new();
        while self.windows.len() > 0
            invariant
                acts@ + all_destroys(self.windows@) == all_destroys(old(self).windows@),
                self.data == old(self).data,
                self.count == old(self).count,
                overlays_wf(self.windows@, self.count),
            decreases self.windows.len(),
        {
            let prev_len = self.windows.len();
            let w = match self.windows.pop() {
                Some(w) => w,
                None => {
                    proof {
                        assert(false);
                    }
                    return acts;
                },
            };
            acts.push(Action::Destroy { id: w.id });
            proof {
                assert(acts@ + all_destroys(self.windows@) =~= all_destroys(old(self).windows@));
                assert(forall|a: int, b: int|
                    0 <= a < b < self.windows@.len() ==> !((#[trigger] self.windows@[a]).wallpaper@
                        == (#[trigger] self.windows@[b]).wallpaper@ && self.windows@[a].target@
                        == self.windows@[b].target@));
            }
        }
        proof {
            assert(acts@ + all_destroys(self.windows@) =~= acts@);
        }
        acts
    }

    /// One reconciliation pass over the given snapshot.
    ///
    /// Every eligible window already served by an overlay gets its
    /// overlay updated (front state edge-triggered, geometry, stacking).
    /// The first window that newly matches a rule has one overlay created
    /// for it and ends the pass at once — at most one creation per pass;
    /// when its profile is gone from the store the pass aborts with an
    /// error and the state is left untouched.  A pass that scanned the
    /// whole snapshot destroys every overlay whose target did not appear,
    /// back to front.
    #[verifier::rlimit(100)]
    pub fn process_windows(&mut self, snapshot: &Vec<LiveWindow>) -> (r: Result<
        Vec<Action>,
        EngineError,
    >)
        requires
            old(self).wf(),
            old(self).count < u64::MAX,
            snapshot_wf(snapshot@),
        ensures
            final(self).wf(),
            final(self).data == old(self).data,
            ({
                let ovs = old(self).windows@;
                let rules = old(self).data.general.wallpapers@;
                let dev = old(self).data.general.dev;
                let snap = snapshot@;
                let cp = creation_point(ovs, rules, dev, snap);
                match r {
                    Err(e) => {
                        &&& cp.is_some()
                        &&& {
                            let ri = first_match(snap[cp.unwrap()].title@, rules).unwrap();
                            &&& !has_wallpaper(old(self).data.wallpapers@, rules[ri].wallpaper@)
                            &&& (e matches EngineError::WallpaperNotFound { name } && name@
                                == rules[ri].wallpaper@)
                        }
                        &&& *final(self) == *old(self)
                    },
                    Ok(acts) => match cp {
                        Some(i) => {
                            let ri = first_match(snap[i].title@, rules).unwrap();
                            let prof = rules[ri].wallpaper@;
                            &&& has_wallpaper(old(self).data.wallpapers@, prof)
                            &&& final(self).count == old(self).count + 1
                            &&& final(self).windows@.len() == ovs.len() + 1
                            &&& final(self).windows@.drop_last() == pass_windows(
                                ovs,
                                rules,
                                dev,
                                snap,
                                i,
                            )
                            &&& final(self).windows@.last().wallpaper@ == prof
                            &&& final(self).windows@.last().target@ == snap[i].title@
                            &&& final(self).windows@.last().front == false
                            &&& final(self).windows@.last().id == old(self).count
                            &&& final(self).windows@.last().alpha == rules[ri].alpha
                            &&& final(self).windows@.last().click_through == !dev
                            &&& acts@ == pass_acts(ovs, rules, dev, snap, i) + create_acts(
                                old(self).count,
                                rules[ri].alpha,
                                dev,
                            )
                        },
                        None => {
                            &&& final(self).count == old(self).count
                            &&& final(self).windows@ == keep_served(
                                pass_windows(ovs, rules, dev, snap, snap.len() as int),
                                rules,
                                dev,
                                snap,
                            )
                            &&& acts@ == pass_acts(ovs, rules, dev, snap, snap.len() as int)
                                + destroy_acts(
                                pass_windows(ovs, rules, dev, snap, snap.len() as int),
                                rules,
                                dev,
                                snap,
                                ovs.len() as int,
                            )
                        },
                    },
                }
            }),
    {
        let ghost ovs0 = self.windows@;
        let ghost rules_g = self.data.general.wallpapers@;
        let ghost snap = snapshot@;
        let dev = self.data.general.dev;
        let n = snapshot.len();

        // First, find the window whose overlay this pass would create,
        // without touching any state; a stale profile then aborts the
        // pass before anything changed.
        let found = find_creation(&self.windows, &self.data.general.wallpapers, dev, snapshot);
        proof {
            lemma_creation_point(ovs0, rules_g, dev, snap);
        }
        let limit: usize = match found {
            Some((ci, ri)) => {
                proof {
                    crate::matching::lemma_first_match(snap[ci as int].title@, rules_g);
                }
                let profile = self.data.general.wallpapers[ri].wallpaper.as_str();
                if self.data.get_wallpaper(profile).is_none() {
                    let name = self.data.general.wallpapers[ri].wallpaper.clone();
                    return Err(EngineError::WallpaperNotFound { name });
                }
                ci
            },
            None => n,
        };

        // Update phase: process every window before the creation point,
        // recording each updated overlay's id in the done-buffer.
        let mut acts: Vec<Action> = Vec::new();
        let mut done: DoneBuf = done_new();
        let mut j: usize = 0;
        proof {
            assert(snap.take(0) =~= Seq::<LiveWindow>::empty());
        }
        while j < limit
            invariant
                j <= limit <= n,
                n == snap.len(),
                snap == snapshot@,
                snapshot_wf(snap),
                overlays_wf(ovs0, old(self).count),
                self.data == old(self).data,
                self.count == old(self).count,
                rules_g == old(self).data.general.wallpapers@,
                dev == old(self).data.general.dev,
                forall|q: int| 0 <= q < limit ==> !is_new_match(ovs0, rules_g, dev, snap[q]),
                self.windows@ == pass_windows(ovs0, rules_g, dev, snap, j as int),
                acts@ == pass_acts(ovs0, rules_g, dev, snap, j as int),
                small_ids(done).len() <= j,
                forall|k: int|
                    0 <= k < ovs0.len() ==> (small_ids(done).contains((#[trigger] ovs0[k]).id)
                        <==> served(ovs0[k], rules_g, dev, snap.take(j as int))),
            decreases limit - j,
        {
            proof {
                assert(snap.take(j + 1).drop_last() =~= snap.take(j as int));
                assert(snap.take(j + 1).last() == snap[j as int]);
                assert(self.windows@.len() == ovs0.len());
                assert(forall|k: int|
                    0 <= k < ovs0.len() ==> (#[trigger] self.windows@[k]).wallpaper@ == ovs0[k].wallpaper@
                        && self.windows@[k].target@ == ovs0[k].target@);
            }
            let title = snapshot[j].title.as_str();
            let fg = snapshot[j].is_foreground;
            let mut handled = false;
            if !title_skipped(title, dev) {
                match match_target(title, &self.data.general.wallpapers) {
                    Some(r) => {
                        proof {
                            crate::matching::lemma_first_match(title@, rules_g);
                        }
                        let profile = self.data.general.wallpapers[r].wallpaper.as_str();
                        match find_window(&self.windows, profile, title) {
                            Some(idx) => {
                                proof {
                                    lemma_find_overlay_same_keys(
                                        self.windows@,
                                        ovs0,
                                        profile@,
                                        title@,
                                    );
                                    lemma_find_overlay(ovs0, profile@, title@);
                                    assert(serves(snap[j as int], ovs0[idx as int], rules_g, dev));
                                    assert forall|k: int|
                                        0 <= k < ovs0.len() && k != idx implies !serves(
                                        snap[j as int],
                                        #[trigger] ovs0[k],
                                        rules_g,
                                        dev,
                                    ) by {
                                        if serves(snap[j as int], ovs0[k], rules_g, dev) {
                                            assert(ovs0[k].wallpaper@ == ovs0[idx as int].wallpaper@
                                                && ovs0[k].target@ == ovs0[idx as int].target@);
                                        }
                                    }
                                }
                                let sh = self.data.general.wallpapers[r].shift;
                                let rect = snapshot[j].rect;
                                let pred = snapshot[j].stack_predecessor;
                                let ghost before_front = self.windows@[idx as int].front;
                                let af = self.windows[idx].set_front(fg);
                                match af {
                                    Some(a) => acts.push(a),
                                    None => {},
                                }
                                let ar = self.windows[idx].set_rect(&sh, &rect);
                                acts.push(ar);
                                let ao = self.windows[idx].set_order(pred);
                                match ao {
                                    Some(a) => acts.push(a),
                                    None => {},
                                }
                                let ovid = self.windows[idx].id;
                                let ghost done0 = small_ids(done);
                                done_push(&mut done, ovid);
                                handled = true;
                                proof {
                                    assert(ovid == ovs0[idx as int].id);
                                    assert forall|k: int| 0 <= k < ovs0.len() implies (small_ids(
                                        done,
                                    ).contains((#[trigger] ovs0[k]).id) <==> served(
                                        ovs0[k],
                                        rules_g,
                                        dev,
                                        snap.take(j + 1),
                                    )) by {
                                        lemma_push_contains(done0, ovid, ovs0[k].id);
                                        lemma_served_extend(ovs0[k], rules_g, dev, snap, j as int);
                                        if k != idx {
                                            assert(ovs0[k].id != ovs0[idx as int].id);
                                        }
                                    }
                                    assert forall|k: int| 0 <= k < ovs0.len() implies pass_front(
                                        #[trigger] ovs0[k],
                                        rules_g,
                                        dev,
                                        snap.take(j + 1),
                                    ) == if k == idx {
                                        fg
                                    } else {
                                        pass_front(ovs0[k], rules_g, dev, snap.take(j as int))
                                    } by {}
                                    assert(before_front == pass_front(
                                        ovs0[idx as int],
                                        rules_g,
                                        dev,
                                        snap.take(j as int),
                                    ));
                                    assert(self.windows@ =~= pass_windows(
                                        ovs0,
                                        rules_g,
                                        dev,
                                        snap,
                                        j + 1,
                                    ));
                                    assert(acts@ =~= pass_acts(ovs0, rules_g, dev, snap, j as int)
                                        + acts_for_window(ovs0, rules_g, dev, snap, j as int));
                                    assert(acts@ =~= pass_acts(ovs0, rules_g, dev, snap, j + 1));
                                }
                            },
                            None => {
                                proof {
                                    lemma_find_overlay_same_keys(
                                        self.windows@,
                                        ovs0,
                                        profile@,
                                        title@,
                                    );
                                    assert(is_new_match(ovs0, rules_g, dev, snap[j as int]));
                                    assert(false);
                                }
                            },
                        }
                    },
                    None => {},
                }
            }
            proof {
                if !handled {
                    assert forall|k: int| 0 <= k < ovs0.len() implies !serves(
                        snap[j as int],
                        #[trigger] ovs0[k],
                        rules_g,
                        dev,
                    ) by {}
                    assert(self.windows@ =~= pass_windows(ovs0, rules_g, dev, snap, j + 1));
                    assert(acts_for_window(ovs0, rules_g, dev, snap, j as int)
                        =~= Seq::<Action>::empty());
                    assert(acts@ =~= pass_acts(ovs0, rules_g, dev, snap, j + 1));
                    assert forall|k: int| 0 <= k < ovs0.len() implies (small_ids(done).contains((
                    #[trigger] ovs0[k]).id) <==> served(
                        ovs0[k],
                        rules_g,
                        dev,
                        snap.take(j + 1),
                    )) by {
                        lemma_served_extend(ovs0[k], rules_g, dev, snap, j as int);
                    }
                }
            }
            j = j + 1;
        }

        match found {
            Some((ci, ri)) => {
                // Creation: one overlay for the first newly matched
                // window, then the pass ends at once.
                proof {
                    lemma_creation_point(ovs0, rules_g, dev, snap);
                    crate::matching::lemma_first_match(snap[ci as int].title@, rules_g);
                    assert(self.windows@.len() == ovs0.len());
                    assert(forall|k: int|
                        0 <= k < ovs0.len() ==> (#[trigger] self.windows@[k]).wallpaper@
                            == ovs0[k].wallpaper@ && self.windows@[k].target@ == ovs0[k].target@);
                    lemma_find_overlay_same_keys(
                        self.windows@,
                        ovs0,
                        rules_g[ri as int].wallpaper@,
                        snap[ci as int].title@,
                    );
                }
                let profile_string = self.data.general.wallpapers[ri].wallpaper.clone();
                let alpha = self.data.general.wallpapers[ri].alpha;
                let target_string = snapshot[ci].title.clone();
                let mut created = self.add(profile_string, alpha, target_string);
                acts.append(&mut created);
                proof {
                    assert(self.windows@.drop_last() =~= pass_windows(
                        ovs0,
                        rules_g,
                        dev,
                        snap,
                        ci as int,
                    ));
                }
                Ok(acts)
            },
            None => {
                // Cleanup: destroy every overlay that no window served,
                // back to front.
                let ghost scanned = pass_windows(ovs0, rules_g, dev, snap, snap.len() as int);
                let ghost full_acts = pass_acts(ovs0, rules_g, dev, snap, snap.len() as int);
                let mut k = self.windows.len();
                proof {
                    assert(snap.take(n as int) =~= snap);
                    assert(self.windows@ =~= scanned.take(k as int) + keep_served(
                        scanned.skip(k as int),
                        rules_g,
                        dev,
                        snap,
                    ));
                }
                while k > 0
                    invariant
                        k <= scanned.len(),
                        scanned == pass_windows(ovs0, rules_g, dev, snap, snap.len() as int),
                        snap == snapshot@,
                        overlays_wf(ovs0, old(self).count),
                        self.data == old(self).data,
                        self.count == old(self).count,
                        rules_g == old(self).data.general.wallpapers@,
                        dev == old(self).data.general.dev,
                        self.windows@ == scanned.take(k as int) + keep_served(
                            scanned.skip(k as int),
                            rules_g,
                            dev,
                            snap,
                        ),
                        acts@ + destroy_acts(scanned, rules_g, dev, snap, k as int) == full_acts
                            + destroy_acts(scanned, rules_g, dev, snap, scanned.len() as int),
                        forall|q: int|
                            0 <= q < ovs0.len() ==> (small_ids(done).contains((
                            #[trigger] ovs0[q]).id) <==> served(ovs0[q], rules_g, dev, snap)),
                    decreases k,
                {
                    k = k - 1;
                    proof {
                        assert(self.windows@[k as int] == scanned[k as int]);
                        assert(scanned.skip(k as int)[0] == scanned[k as int]);
                        assert(scanned.skip(k as int).skip(1) =~= scanned.skip(k + 1));
                        assert(scanned[k as int].id == ovs0[k as int].id);
                        lemma_served_same_key(scanned[k as int], ovs0[k as int], rules_g, dev, snap);
                    }
                    let seen = done_contains(&done, self.windows[k].id);
                    if !seen {
                        let id = self.windows[k].id;
                        acts.push(Action::Destroy { id });
                        self.windows.remove(k);
                        proof {
                            assert(self.windows@ =~= scanned.take(k as int) + keep_served(
                                scanned.skip(k as int),
                                rules_g,
                                dev,
                                snap,
                            ));
                            assert(acts@ + destroy_acts(scanned, rules_g, dev, snap, k as int)
                                =~= full_acts + destroy_acts(
                                scanned,
                                rules_g,
                                dev,
                                snap,
                                scanned.len() as int,
                            ));
                        }
                    } else {
                        proof {
                            assert(self.windows@ =~= scanned.take(k as int) + keep_served(
                                scanned.skip(k as int),
                                rules_g,
                                dev,
                                snap,
                            ));
                            assert(acts@ + destroy_acts(scanned, rules_g, dev, snap, k as int)
                                =~= full_acts + destroy_acts(
                                scanned,
                                rules_g,
                                dev,
                                snap,
                                scanned.len() as int,
                            ));
                        }
                    }
                }
                proof {
                    assert(scanned.skip(0) =~= scanned);
                    assert(self.windows@ =~= keep_served(scanned, rules_g, dev, snap));
                    assert(acts@ =~= full_acts + destroy_acts(
                        scanned,
                        rules_g,
                        dev,
                        snap,
                        scanned.len() as int,
                    ));
                    assert(overlays_wf(scanned, old(self).count)) by {
                        assert(forall|q: int|
                            0 <= q < ovs0.len() ==> (#[trigger] scanned[q]).wallpaper@
                                == ovs0[q].wallpaper@ && scanned[q].target@ == ovs0[q].target@
                                && scanned[q].id == ovs0[q].id);
                    }
                    lemma_keep_served_wf(scanned, rules_g, dev, snap, old(self).count);
                }
                Ok(acts)
            },
        }
    }

    /// Replaces the whole rule set atomically between passes; the caller
    /// resets the overlays so the next tick rebuilds them.
    pub fn set_wallpapers(&mut self, rules: Vec<Target>)
        ensures
            final(self).data.general.wallpapers == rules,
            final(self).data.general.language == old(self).data.general.language,
            final(self).data.general.update_interval_ms == old(self).data.general.update_interval_ms,
            final(self).data.general.dev == old(self).data.general.dev,
            final(self).data.wallpapers == old(self).data.wallpapers,
            final(self).data.templates == old(self).data.templates,
            final(self).data.extensions == old(self).data.extensions,
            final(self).windows == old(self).windows,
            final(self).count == old(self).count,
    {
        self.data.general.wallpapers = rules;
    }

    /// Records a new heartbeat interval in milliseconds; the caller
    /// forwards it to the timer thread, where it takes effect after the
    /// current wait.
    pub fn set_update_interval(&mut self, ms: u64)
        ensures
            final(self).data.general.update_interval_ms == ms,
            final(self).data.general.language == old(self).data.general.language,
            final(self).data.general.wallpapers == old(self).data.general.wallpapers,
            final(self).data.general.dev == old(self).data.general.dev,
            final(self).data.wallpapers == old(self).data.wallpapers,
            final(self).data.templates == old(self).data.templates,
            final(self).data.extensions == old(self).data.extensions,
            final(self).windows == old(self).windows,
            final(self).count == old(self).count,
    {
        self.data.general.update_interval_ms = ms;
    }

    /// Toggles developer mode; the caller resets the overlays so they
    /// are rebuilt with the new click-through and devtools state.
    pub fn set_dev(&mut self, dev: bool)
        ensures
            final(self).data.general.dev == dev,
            final(self).data.general.language == old(self).data.general.language,
            final(self).data.general.wallpapers == old(self).data.general.wallpapers,
            final(self).data.general.update_interval_ms == old(self).data.general.update_interval_ms,
            final(self).data.wallpapers == old(self).data.wallpapers,
            final(self).data.templates == old(self).data.templates,
            final(self).data.extensions == old(self).data.extensions,
            final(self).windows == old(self).windows,
            final(self).count == old(self).count,
    {
        self.data.general.dev = dev;
    }

    /// Sets the interface language.  A language is accepted exactly when
    /// it occurs inside the supported-language string.
    pub fn set_language(&mut self, language: String) -> (r: Result<(), EngineError>)
        ensures
            match r {
                Ok(()) => spec_contains("jaen"@, language@) && final(self).data.general.language
                    == language,
                Err(e) => {
                    &&& !spec_contains("jaen"@, language@)
                    &&& *final(self) == *old(self)
                    &&& (e matches EngineError::UnknownLanguage)
                },
            },
            final(self).data.general.wallpapers == old(self).data.general.wallpapers,
            final(self).data.general.update_interval_ms == old(self).data.general.update_interval_ms,
            final(self).data.general.dev == old(self).data.general.dev,
            final(self).data.wallpapers == old(self).data.wallpapers,
            final(self).data.templates == old(self).data.templates,
            final(self).data.extensions == old(self).data.extensions,
            final(self).windows == old(self).windows,
            final(self).count == old(self).count,
    {
        if contains_sub("jaen", language.as_str()) {
            self.data.general.language = language;
            Ok(())
        } else {
            Err(EngineError::UnknownLanguage)
        }
    }

    /// Shuts the engine down: forgets every rule and destroys every
    /// overlay.  The caller stops the heartbeat before tearing down.
    pub fn stop(&mut self) -> (acts: Vec<Action>)
        requires
            old(self).wf(),
        ensures
            final(self).wf(),
            final(self).windows@.len() == 0,
            final(self).data.general.wallpapers@.len() == 0,
            final(self).data.general.language == old(self).data.general.language,
            final(self).data.general.update_interval_ms == old(self).data.general.update_interval_ms,
            final(self).data.general.dev == old(self).data.general.dev,
            final(self).data.wallpapers == old(self).data.wallpapers,
            final(self).data.templates == old(self).data.templates,
            final(self).data.extensions == old(self).data.extensions,
            acts@ == all_destroys(old(self).windows@),
            final(self).count == old(self).count,
    {
        self.data.general.wallpapers = Vec::new();
        self.reset_windows()
    }
}

/// The value is one of the sequence's served overlays.
pub open spec fn from_served(
    x: Window,
    ovs: Seq<Window>,
    rules: Seq<Target>,
    dev: bool,
    snap: Seq<LiveWindow>,
) -> bool {
    exists|q: int| 0 <= q < ovs.len() && x == #[trigger] ovs[q] && served(ovs[q], rules, dev, snap)
}

/// Every survivor of cleanup is one of the scanned overlays, and it is
/// served.
pub proof fn lemma_keep_served_sub(
    ovs: Seq<Window>,
    rules: Seq<Target>,
    dev: bool,
    snap: Seq<LiveWindow>,
)
    ensures
        forall|p: int|
            0 <= p < keep_served(ovs, rules, dev, snap).len() ==> from_served(
                #[trigger] keep_served(ovs, rules, dev, snap)[p],
                ovs,
                rules,
                dev,
                snap,
            ),
    decreases ovs.len(),
{
    if ovs.len() > 0 {
        lemma_keep_served_sub(ovs.skip(1), rules, dev, snap);
        let rest = keep_served(ovs.skip(1), rules, dev, snap);
        let whole = keep_served(ovs, rules, dev, snap);
        let head: Seq<Window> = if served(ovs[0], rules, dev, snap) {
            seq![ovs[0]]
        } else {
            Seq::<Window>::empty()
        };
        assert(whole == head + rest);
        assert forall|p: int| 0 <= p < whole.len() implies from_served(
            #[trigger] whole[p],
            ovs,
            rules,
            dev,
            snap,
        ) by {
            if p < head.len() {
                assert(whole[p] == ovs[0]);
            } else {
                assert(whole[p] == rest[p - head.len()]);
                let q0 = choose|q: int|
                    0 <= q < ovs.skip(1).len() && rest[p - head.len()] == #[trigger] ovs.skip(1)[q]
                        && served(ovs.skip(1)[q], rules, dev, snap);
                assert(ovs.skip(1)[q0] == ovs[q0 + 1]);
                assert(whole[p] == ovs[q0 + 1] && served(ovs[q0 + 1], rules, dev, snap));
            }
        }
    }
}

/// A served overlay survives cleanup.
pub proof fn lemma_keep_served_keeps(
    ovs: Seq<Window>,
    rules: Seq<Target>,
    dev: bool,
    snap: Seq<LiveWindow>,
    q: int,
)
    requires
        0 <= q < ovs.len(),
        served(ovs[q], rules, dev, snap),
    ensures
        exists|p: int|
            0 <= p < keep_served(ovs, rules, dev, snap).len() && #[trigger] keep_served(
                ovs,
                rules,
                dev,
                snap,
            )[p] == ovs[q],
    decreases ovs.len(),
{
    let whole = keep_served(ovs, rules, dev, snap);
    if q == 0 {
        assert(whole[0] == ovs[0]);
    } else {
        assert(ovs.skip(1)[q - 1] == ovs[q]);
        lemma_keep_served_keeps(ovs.skip(1), rules, dev, snap, q - 1);
        let rest = keep_served(ovs.skip(1), rules, dev, snap);
        let p0 = choose|p: int| 0 <= p < rest.len() && #[trigger] rest[p] == ovs.skip(1)[q - 1];
        let head: Seq<Window> = if served(ovs[0], rules, dev, snap) {
            seq![ovs[0]]
        } else {
            Seq::<Window>::empty()
        };
        assert(whole[p0 + head.len()] == rest[p0]);
    }
}

/// When every overlay is served, cleanup removes nothing.
pub proof fn lemma_keep_served_all(
    ovs: Seq<Window>,
    rules: Seq<Target>,
    dev: bool,
    snap: Seq<LiveWindow>,
)
    requires
        forall|q: int| 0 <= q < ovs.len() ==> served(#[trigger] ovs[q], rules, dev, snap),
    ensures
        keep_served(ovs, rules, dev, snap) == ovs,
    decreases ovs.len(),
{
    if ovs.len() > 0 {
        assert(forall|q: int| 0 <= q < ovs.skip(1).len() ==> ovs.skip(1)[q] == ovs[q + 1]);
        lemma_keep_served_all(ovs.skip(1), rules, dev, snap);
        assert(keep_served(ovs, rules, dev, snap) =~= ovs);
    }
}

/// Cleanup preserves the uniqueness invariant.
pub proof fn lemma_keep_served_wf(
    ovs: Seq<Window>,
    rules: Seq<Target>,
    dev: bool,
    snap: Seq<LiveWindow>,
    count: u64,
)
    requires
        overlays_wf(ovs, count),
    ensures
        overlays_wf(keep_served(ovs, rules, dev, snap), count),
    decreases ovs.len(),
{
    if ovs.len() > 0 {
        let tail = ovs.skip(1);
        assert(forall|q: int| 0 <= q < tail.len() ==> tail[q] == ovs[q + 1]);
        assert(overlays_wf(tail, count));
        lemma_keep_served_wf(tail, rules, dev, snap, count);
        lemma_keep_served_sub(tail, rules, dev, snap);
        let rest = keep_served(tail, rules, dev, snap);
        let whole = keep_served(ovs, rules, dev, snap);
        if served(ovs[0], rules, dev, snap) {
            assert(whole[0] == ovs[0]);
            assert(forall|p: int| 0 <= p < rest.len() ==> whole[p + 1] == rest[p]);
            assert forall|i: int, j: int| 0 <= i < j < whole.len() implies !((
            #[trigger] whole[i]).wallpaper@ == (#[trigger] whole[j]).wallpaper@ && whole[i].target@
                == whole[j].target@) && whole[i].id != whole[j].id by {
                if i == 0 {
                    let q0 = choose|q: int|
                        0 <= q < tail.len() && rest[j - 1] == tail[q] && served(
                            tail[q],
                            rules,
                            dev,
                            snap,
                        );
                    assert(whole[j] == ovs[q0 + 1]);
                } else {
                    assert(whole[i] == rest[i - 1] && whole[j] == rest[j - 1]);
                }
            }
            assert forall|i: int| 0 <= i < whole.len() implies (#[trigger] whole[i]).id < count by {
                if i > 0 {
                    assert(whole[i] == rest[i - 1]);
                }
            }
        } else {
            assert(whole =~= rest);
        }
    }
}

/// Index of the first owned overlay with the given profile and target.
pub fn find_window(windows: &Vec<Window>, profile: &str, title: &str) -> (r: Option<usize>)
    ensures
        match r {
            Some(i) => find_overlay(windows@, profile@, title@) == Some(i as int),
            None => find_overlay(windows@, profile@, title@).is_none(),
        },
{
    let n = windows.len();
    let mut i: usize = 0;
    while i < n
        invariant
            n == windows@.len(),
            i <= n,
            forall|j: int|
                0 <= j < i ==> !((#[trigger] windows@[j]).wallpaper@ == profile@
                    && windows@[j].target@ == title@),
        decreases n - i,
    {
        if str_eq(windows[i].wallpaper.as_str(), profile) && str_eq(
            windows[i].target.as_str(),
            title,
        ) {
            proof {
                lemma_find_overlay(windows@, profile@, title@);
                match find_overlay(windows@, profile@, title@) {
                    Some(k) => {
                        if k < i {
                            assert(!(windows@[k].wallpaper@ == profile@ && windows@[k].target@
                                == title@));
                        } else if k > i {
                            assert(!(windows@[i as int].wallpaper@ == profile@
                                && windows@[i as int].target@ == title@));
                        }
                    },
                    None => {
                        assert(!(windows@[i as int].wallpaper@ == profile@
                            && windows@[i as int].target@ == title@));
                    },
                }
            }
            return Some(i);
        }
        i = i + 1;
    }
    proof {
        lemma_find_overlay(windows@, profile@, title@);
    }
    None
}

/// The title is to be skipped: it is one of the application's own
/// windows, or a devtools window while in developer mode.
pub fn title_skipped(title: &str, dev: bool) -> (r: bool)
    ensures
        r == skip_title(title@, dev),
{
    if contains_sub(title, "FreedomWall") {
        return true;
    }
    dev && contains_sub(title, "DevTools")
}


} // verus!
