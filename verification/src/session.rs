//! The layout session: owns the live-edited monitor set and its pristine
//! baseline, keeps the canvas transform consistent with the current layout,
//! and reconciles edits against a compositor backend.
//!
//! All mutation happens through `&mut self` methods on one owned session, so
//! at most one backend call sequence is ever in flight at a time.

use vstd::prelude::*;
use crate::backend::{monitor_set_wf, DisplayBackend};
use crate::geometry::{
    bounding_box, canvas_scale_factor, compute_bounding_box, rect_in_bounds, spec_canvas_scale,
    CanvasScale, Rect,
};
use crate::monitor::{views_of, sets_differ, Monitor, MonitorConfig, MonitorV};
use crate::COORD_LIMIT;

verus! {

/// Logical width of the canvas the monitor set is projected onto.
pub const CANVAS_W: i32 = 640;

/// Logical height of the canvas.
pub const CANVAS_H: i32 = 220;

/// Visual snap budget in canvas pixels: dragging feels the same at every
/// zoom because the virtual-space threshold is this budget divided by the
/// canvas scale.
pub const SNAP_VISUAL_BUDGET: i32 = 50;

/// The rectangle each monitor occupies in virtual space.
pub open spec fn spec_rects(ms: Seq<Monitor>) -> Seq<Rect> {
    ms.map_values(|m: Monitor| (m.x, m.y, m.width, m.height))
}

/// Origin of the canvas projection: the bounding box minimum, or (0, 0) for
/// an empty set.
pub open spec fn spec_origin(ms: Seq<Monitor>) -> (int, int) {
    if ms.len() == 0 {
        (0int, 0int)
    } else {
        let bb = bounding_box(spec_rects(ms));
        (bb.0, bb.1)
    }
}

/// The name of the first focused monitor, front first.
pub open spec fn spec_first_focused(ms: Seq<MonitorV>) -> Seq<char>
    decreases ms.len(),
{
    if ms.len() == 0 {
        Seq::empty()
    } else if ms[0].focused {
        ms[0].name
    } else {
        spec_first_focused(ms.drop_first())
    }
}

/// Some monitor in the set is focused.
pub open spec fn spec_has_focused(ms: Seq<MonitorV>) -> bool {
    exists|i: int| 0 <= i < ms.len() && (#[trigger] ms[i]).focused
}

/// The primary seed a freshly loaded session picks: the first focused
/// monitor's name, else the first monitor's name, else empty.
pub open spec fn spec_primary(ms: Seq<MonitorV>) -> Seq<char> {
    if ms.len() == 0 {
        Seq::empty()
    } else if spec_has_focused(ms) {
        spec_first_focused(ms)
    } else {
        ms[0].name
    }
}

proof fn lemma_first_focused_at(ms: Seq<MonitorV>, i: int)
    requires
        0 <= i < ms.len(),
        ms[i].focused,
        forall|k: int| 0 <= k < i ==> !(#[trigger] ms[k]).focused,
    ensures
        spec_first_focused(ms) == ms[i].name,
    decreases i,
{
    if i == 0 {
    } else {
        assert(!ms[0].focused);
        assert(forall|k: int| 0 <= k < i - 1 ==> ms.drop_first()[k] == ms[k + 1]);
        assert(ms.drop_first()[i - 1] == ms[i]);
        lemma_first_focused_at(ms.drop_first(), i - 1);
    }
}

/// What one apply cycle came to. Pushing the configuration live and
/// persisting it are independently failable steps: a live push that could
/// not be saved is reported distinctly, because the running state did
/// change even though it will not survive a restart.
pub enum ApplyOutcome {
    /// The configuration was pushed live and saved; `path` says where.
    Applied { path: String },
    /// The configuration was pushed live but saving it failed.
    AppliedNotSaved { error: String },
    /// The live push itself failed; nothing changed.
    Failed { error: String },
}

impl ApplyOutcome {
    /// One-line status text naming the action and, on failure, the error.
    pub fn status_message(&self) -> (r: String)
        ensures
            match self {
                ApplyOutcome::Applied { path } => r@ == "Applied and saved to "@ + path@,
                ApplyOutcome::AppliedNotSaved { error } => r@ == "Applied live but failed to save: "@
                    + error@,
                ApplyOutcome::Failed { error } => r@ == "Apply failed: "@ + error@,
            },
    {
        match self {
            ApplyOutcome::Applied { path } => {
                let mut r = String::from_str("Applied and saved to ");
                r.append(path.as_str());
                r
            },
            ApplyOutcome::AppliedNotSaved { error } => {
                let mut r = String::from_str("Applied live but failed to save: ");
                r.append(error.as_str());
                r
            },
            ApplyOutcome::Failed { error } => {
                let mut r = String::from_str("Apply failed: ");
                r.append(error.as_str());
                r
            },
        }
    }
}

/// A coordinate confined to the engine's bounds.
pub open spec fn spec_clamp_coord(v: int) -> int {
    if v < -COORD_LIMIT {
        -COORD_LIMIT as int
    } else if v > COORD_LIMIT {
        COORD_LIMIT as int
    } else {
        v
    }
}

fn clamp_coord(v: i32) -> (r: i32)
    ensures
        r as int == spec_clamp_coord(v as int),
{
    if v < -COORD_LIMIT {
        -COORD_LIMIT
    } else if v > COORD_LIMIT {
        COORD_LIMIT
    } else {
        v
    }
}

/// The virtual-space snap threshold the visual budget yields at the given
/// canvas scale, saturating at `i32::MAX`.
pub open spec fn spec_snap_threshold(num: int, den: int) -> int {
    let t = SNAP_VISUAL_BUDGET * den / num;
    if t > i32::MAX {
        i32::MAX as int
    } else {
        t
    }
}

/// Where a drag of monitor `idx` to `(nx, ny)` actually lands: the position
/// is confined to the engine's bounds, snapped against all other monitors,
/// and a snap result outside the bounds is not taken.
pub open spec fn spec_move_target(ms: Seq<Monitor>, idx: int, nx: int, ny: int, th: int) -> (
    int,
    int,
) {
    let cx = spec_clamp_coord(nx);
    let cy = spec_clamp_coord(ny);
    let m = ms[idx];
    let others = spec_rects(ms).remove(idx);
    let s = crate::geometry::spec_snap(cx, cy, m.width as int, m.height as int, others, th);
    if -COORD_LIMIT <= s.0 <= COORD_LIMIT && -COORD_LIMIT <= s.1 <= COORD_LIMIT {
        s
    } else {
        (cx, cy)
    }
}

/// One monitor's canvas rectangle at the given origin and scale fraction.
pub open spec fn spec_canvas_rect(m: MonitorV, minx: int, miny: int, num: int, den: int) -> (
    int,
    int,
    int,
    int,
) {
    (
        (m.x - minx) * num / den + crate::CANVAS_MARGIN,
        (m.y - miny) * num / den + crate::CANVAS_MARGIN,
        m.width * num / den,
        m.height * num / den,
    )
}

/// Scale a non-negative virtual length by the canvas fraction.
fn scale_project(v: i64, num: i64, den: i64) -> (r: i64)
    requires
        0 <= v <= 2 * COORD_LIMIT,
        0 < num <= den <= 3 * COORD_LIMIT,
    ensures
        r == v as int * num as int / den as int,
        0 <= r <= v,
{
    proof {
        assert(0 <= v as int * num as int <= 0x4000_0000_0000_0000) by (nonlinear_arith)
            requires
                0 <= v as int <= 0x4000_0000,
                0 < num as int <= 0x6000_0000,
        ;
        vstd::arithmetic::mul::lemma_mul_inequality(num as int, den as int, v as int);
        vstd::arithmetic::mul::lemma_mul_is_commutative(v as int, num as int);
        vstd::arithmetic::mul::lemma_mul_is_commutative(v as int, den as int);
        vstd::arithmetic::div_mod::lemma_div_is_ordered(
            v as int * num as int,
            v as int * den as int,
            den as int,
        );
        vstd::arithmetic::div_mod::lemma_div_by_multiple(v as int, den as int);
        vstd::arithmetic::mul::lemma_mul_nonnegative(v as int, num as int);
        vstd::arithmetic::div_mod::lemma_div_pos_is_pos(v as int * num as int, den as int);
    }
    v * num / den
}

/// A layout session over one backend.
pub struct LayoutSession<B: DisplayBackend> {
    /// The backend all queries and pushes go through.
    pub backend: B,
    /// The live-edited monitor set.
    pub monitors: Vec<Monitor>,
    /// The pristine baseline: last loaded or last successfully applied.
    pub baseline: Vec<Monitor>,
    /// Bounding-box origin of the current set, subtracted before scaling.
    pub min_x: i32,
    pub min_y: i32,
    /// Canvas projection scale for the current set.
    pub scale: CanvasScale,
    /// Name of the monitor currently considered primary.
    pub primary: String,
}

/// The session's canvas transform matches its current monitor set.
pub open spec fn canvas_consistent<B: DisplayBackend>(s: &LayoutSession<B>) -> bool {
    &&& (s.scale.num as int, s.scale.den as int) == spec_canvas_scale(
        spec_rects(s.monitors@),
        CANVAS_W as int,
        CANVAS_H as int,
    )
    &&& (s.min_x as int, s.min_y as int) == spec_origin(s.monitors@)
}

/// Session well-formedness: both monitor sets are well formed and the
/// canvas transform is consistent with the current one.
pub open spec fn session_wf<B: DisplayBackend>(s: &LayoutSession<B>) -> bool {
    &&& monitor_set_wf(views_of(s.monitors@))
    &&& monitor_set_wf(views_of(s.baseline@))
    &&& canvas_consistent(s)
}

/// Integer division truncating toward zero, for a positive divisor: the
/// rounding a float-to-integer cast applies.
pub open spec fn trunc_div(a: int, b: int) -> int {
    if a >= 0 {
        a / b
    } else {
        -((-a) / b)
    }
}

/// The virtual coordinate a canvas coordinate maps back to: margin removed,
/// divided by the canvas fraction (truncating toward zero), shifted by the
/// bounding-box origin, and saturated to the machine integer range.
pub open spec fn spec_virtual_from_canvas(c: int, origin: int, num: int, den: int) -> int {
    let v = trunc_div((c - crate::CANVAS_MARGIN) * den, num) + origin;
    if v > i32::MAX {
        i32::MAX as int
    } else if v < i32::MIN {
        i32::MIN as int
    } else {
        v
    }
}

fn unscale_axis(c: i32, origin: i32, num: i64, den: i64) -> (r: i32)
    requires
        0 < num <= den <= 3 * COORD_LIMIT,
    ensures
        r as int == spec_virtual_from_canvas(c as int, origin as int, num as int, den as int),
{
    let d = c as i64 - crate::CANVAS_MARGIN as i64;
    let mag = if d < 0 {
        -d
    } else {
        d
    };
    proof {
        assert(0 <= mag as int * den as int <= 0x6000_0000_0000_0000) by (nonlinear_arith)
            requires
                0 <= mag as int <= 0x1_0000_0000,
                0 < den as int <= 0x6000_0000,
        ;
        vstd::arithmetic::mul::lemma_mul_nonnegative(mag as int, den as int);
        vstd::arithmetic::div_mod::lemma_div_pos_is_pos(mag as int * den as int, num as int);
        vstd::arithmetic::div_mod::lemma_div_is_ordered(
            0,
            mag as int * den as int,
            num as int,
        );
        vstd::arithmetic::div_mod::lemma_div_is_ordered_by_denominator(
            mag as int * den as int,
            1,
            num as int,
        );
    }
    let q = (mag * den) / num;
    let sq = if d < 0 {
        -q
    } else {
        q
    };
    proof {
        let di = c as int - crate::CANVAS_MARGIN as int;
        assert(d as int == di);
        if di < 0 {
            let mi = mag as int;
            let deni = den as int;
            assert(mi == -di);
            assert(mi * deni == -(di * deni) && (di * deni) < 0) by (nonlinear_arith)
                requires
                    mi == -di,
                    di < 0,
                    deni > 0,
            ;
            assert(sq as int == trunc_div(di * deni, num as int));
        } else {
            assert(mag as int == di);
            assert(sq as int == trunc_div(di * den as int, num as int));
        }
    }
    let v = sq + origin as i64;
    if v > i32::MAX as i64 {
        i32::MAX
    } else if v < i32::MIN as i64 {
        i32::MIN
    } else {
        v as i32
    }
}

/// A clean session turns dirty the moment one monitor's editable state is
/// replaced by anything beyond the tolerances: when the current set equals
/// the baseline, updating any single monitor to a state that differs from
/// its baseline entry makes the sets differ.
pub proof fn lemma_edit_beyond_tolerance_dirties(base: Seq<MonitorV>, i: int, m: MonitorV)
    requires
        0 <= i < base.len(),
        crate::monitor::monitor_edit_differs(m, base[i]),
    ensures
        sets_differ(base.update(i, m), base),
{
    assert(base.update(i, m)[i] == m);
}

/// An edited set never differs from itself: the dirty check is reflexive.
pub proof fn lemma_identical_sets_clean(ms: Seq<MonitorV>)
    ensures
        !sets_differ(ms, ms),
{
    assert(forall|i: int|
        0 <= i < ms.len() ==> !crate::monitor::monitor_edit_differs(
            #[trigger] ms[i],
            #[trigger] ms[i],
        ));
}

/// Deep copy of a monitor vector.
fn clone_monitors(v: &Vec<Monitor>) -> (r: Vec<Monitor>)
    ensures
        views_of(r@) == views_of(v@),
{
    let r = v.clone();
    proof {
        assert forall|i: int| 0 <= i < r@.len() implies (#[trigger] r@[i])@ == v@[i]@ by {
            assert(cloned::<Monitor>(v@[i], r@[i]));
        }
        assert(views_of(r@) =~= views_of(v@));
    }
    r
}

/// Pick the primary seed for a freshly loaded set.
fn pick_primary(ms: &Vec<Monitor>) -> (r: String)
    ensures
        r@ == spec_primary(views_of(ms@)),
{
    let ghost vs = views_of(ms@);
    let n = ms.len();
    let mut i: usize = 0;
    while i < n
        invariant
            n == ms@.len(),
            vs == views_of(ms@),
            0 <= i <= n,
            forall|k: int| 0 <= k < i ==> !(#[trigger] vs[k]).focused,
        decreases n - i,
    {
        if ms[i].focused {
            proof {
                lemma_first_focused_at(vs, i as int);
            }
            return ms[i].name.clone();
        }
        i = i + 1;
    }
    if n > 0 {
        let r = ms[0].name.clone();
        assert(!spec_has_focused(vs));
        r
    } else {
        let r = String::new();
        assert(r@ =~= spec_primary(vs));
        r
    }
}

impl<B: DisplayBackend> LayoutSession<B> {
    /// A fresh session around a backend, with no monitors loaded yet.
    pub fn new(backend: B) -> (r: Self)
        ensures
            session_wf(&r),
            r.monitors@.len() == 0,
            r.baseline@.len() == 0,
            r.primary@.len() == 0,
    {
        let r = LayoutSession {
            backend,
            monitors: Vec::new(),
            baseline: Vec::new(),
            min_x: 0,
            min_y: 0,
            scale: CanvasScale { num: 1, den: 1 },
            primary: String::new(),
        };
        proof {
            assert(views_of(r.monitors@) =~= Seq::<MonitorV>::empty());
            assert(views_of(r.baseline@) =~= Seq::<MonitorV>::empty());
            assert(spec_rects(r.monitors@) =~= Seq::<Rect>::empty());
        }
        r
    }

    /// Recompute the canvas transform for the current monitor set.
    fn recalc_canvas(&mut self)
        requires
            monitor_set_wf(views_of(old(self).monitors@)),
        ensures
            final(self).backend == old(self).backend,
            final(self).monitors == old(self).monitors,
            final(self).baseline == old(self).baseline,
            final(self).primary == old(self).primary,
            canvas_consistent(final(self)),
    {
        let ghost ms = self.monitors@;
        let mut rects: Vec<Rect> = Vec::new();
        let n = self.monitors.len();
        let mut i: usize = 0;
        while i < n
            invariant
                n == self.monitors@.len(),
                self.monitors@ == ms,
                0 <= i <= n,
                rects@.len() == i,
                forall|k: int|
                    0 <= k < i ==> #[trigger] rects@[k] == (ms[k].x, ms[k].y, ms[k].width,
                    ms[k].height),
            decreases n - i,
        {
            let m = &self.monitors[i];
            rects.push((m.x, m.y, m.width, m.height));
            i = i + 1;
        }
        proof {
            assert(rects@ =~= spec_rects(ms));
            assert forall|k: int| 0 <= k < rects@.len() implies rect_in_bounds(
                #[trigger] rects@[k],
            ) by {
                assert(crate::monitor::monitor_wf(views_of(ms)[k]));
            }
        }
        self.scale = canvas_scale_factor(rects.as_slice(), CANVAS_W, CANVAS_H);
        if rects.len() == 0 {
            self.min_x = 0;
            self.min_y = 0;
        } else {
            let bb = compute_bounding_box(rects.as_slice());
            self.min_x = bb.0;
            self.min_y = bb.1;
        }
    }

    /// Install a freshly queried monitor set: it becomes both the current
    /// set and the baseline, the primary is re-seeded from it, and the
    /// canvas transform is recomputed. The session then holds exactly the
    /// given set and is clean.
    pub fn adopt_monitors(&mut self, ms: Vec<Monitor>)
        requires
            monitor_set_wf(views_of(ms@)),
        ensures
            session_wf(final(self)),
            final(self).backend == old(self).backend,
            views_of(final(self).monitors@) == views_of(ms@),
            views_of(final(self).baseline@) == views_of(ms@),
            final(self).primary@ == spec_primary(views_of(ms@)),
            !sets_differ(views_of(final(self).monitors@), views_of(final(self).baseline@)),
    {
        self.monitors = ms;
        self.baseline = clone_monitors(&self.monitors);
        self.primary = pick_primary(&self.monitors);
        self.recalc_canvas();
        proof {
            lemma_identical_sets_clean(views_of(self.monitors@));
        }
    }

    /// Query the backend and, on success, adopt the result: the session
    /// then holds exactly what the backend reported, as both the current
    /// set and the baseline, with the primary re-seeded — see
    /// `adopt_monitors`, which states this for every reply value. On
    /// failure the session is untouched and the error surfaces.
    pub fn load(&mut self) -> (r: Result<(), String>)
        requires
            session_wf(old(self)),
        ensures
            session_wf(final(self)),
            final(self).backend == old(self).backend,
            match r {
                Ok(()) => {
                    &&& views_of(final(self).monitors@) == views_of(final(self).baseline@)
                    &&& final(self).primary@ == spec_primary(views_of(final(self).monitors@))
                    &&& !sets_differ(
                        views_of(final(self).monitors@),
                        views_of(final(self).baseline@),
                    )
                },
                Err(_) => *final(self) == *old(self),
            },
    {
        match self.backend.query_monitors() {
            Ok(ms) => {
                self.adopt_monitors(ms);
                Ok(())
            },
            Err(e) => Err(e),
        }
    }

    /// Discard all edits: the current set becomes a copy of the baseline
    /// again and the canvas transform is recomputed; the session is clean.
    pub fn revert(&mut self)
        requires
            session_wf(old(self)),
        ensures
            session_wf(final(self)),
            final(self).backend == old(self).backend,
            final(self).baseline == old(self).baseline,
            final(self).primary == old(self).primary,
            views_of(final(self).monitors@) == views_of(old(self).baseline@),
            !sets_differ(views_of(final(self).monitors@), views_of(final(self).baseline@)),
    {
        self.monitors = clone_monitors(&self.baseline);
        self.recalc_canvas();
        proof {
            lemma_identical_sets_clean(views_of(self.monitors@));
        }
    }

    /// The session is dirty: the current set differs from the baseline
    /// beyond the tolerances (any position, size or enablement change, a
    /// refresh rate moved by more than 0.1 Hz, a scale moved by more than
    /// 0.01), or the counts differ.
    pub fn has_changes(&self) -> (r: bool)
        ensures
            r == sets_differ(views_of(self.monitors@), views_of(self.baseline@)),
    {
        let ghost cur = views_of(self.monitors@);
        let ghost base = views_of(self.baseline@);
        let n = self.monitors.len();
        if n != self.baseline.len() {
            return true;
        }
        let mut i: usize = 0;
        while i < n
            invariant
                n == self.monitors@.len(),
                n == self.baseline@.len(),
                cur == views_of(self.monitors@),
                base == views_of(self.baseline@),
                0 <= i <= n,
                forall|k: int|
                    0 <= k < i ==> !crate::monitor::monitor_edit_differs(
                        #[trigger] cur[k],
                        #[trigger] base[k],
                    ),
            decreases n - i,
        {
            let m = &self.monitors[i];
            let o = &self.baseline[i];
            let refresh_delta = m.refresh_chz as i64 - o.refresh_chz as i64;
            let refresh_gap = if refresh_delta < 0 {
                -refresh_delta
            } else {
                refresh_delta
            };
            let scale_delta = m.scale_pct as i64 - o.scale_pct as i64;
            let scale_gap = if scale_delta < 0 {
                -scale_delta
            } else {
                scale_delta
            };
            if m.x != o.x || m.y != o.y || m.width != o.width || m.height != o.height
                || refresh_gap > 10 || scale_gap > 1 || m.enabled != o.enabled {
                assert(crate::monitor::monitor_edit_differs(cur[i as int], base[i as int]));
                return true;
            }
            i = i + 1;
        }
        false
    }

    /// Move one monitor to a new virtual position. The position is confined
    /// to the engine's coordinate bounds, then snapped against all other
    /// monitors with a threshold of `SNAP_VISUAL_BUDGET` canvas pixels
    /// divided by the canvas scale; a snap landing outside the bounds is
    /// not taken. The canvas transform is recomputed afterwards. An index
    /// out of range leaves the session untouched.
    pub fn move_monitor(&mut self, idx: usize, new_x: i32, new_y: i32)
        requires
            session_wf(old(self)),
        ensures
            session_wf(final(self)),
            final(self).backend == old(self).backend,
            final(self).baseline == old(self).baseline,
            final(self).primary == old(self).primary,
            idx >= old(self).monitors@.len() ==> *final(self) == *old(self),
            idx < old(self).monitors@.len() ==> ({
                let th = spec_snap_threshold(
                    old(self).scale.num as int,
                    old(self).scale.den as int,
                );
                let t = spec_move_target(
                    old(self).monitors@,
                    idx as int,
                    new_x as int,
                    new_y as int,
                    th,
                );
                let vs = views_of(old(self).monitors@);
                views_of(final(self).monitors@) == vs.update(
                    idx as int,
                    MonitorV { x: t.0, y: t.1, ..vs[idx as int] },
                )
            }),
    {
        let n = self.monitors.len();
        if idx >= n {
            return ;
        }
        proof {
            assert forall|k: int| 0 <= k < spec_rects(self.monitors@).len() implies rect_in_bounds(
                #[trigger] spec_rects(self.monitors@)[k],
            ) by {
                assert(crate::monitor::monitor_wf(views_of(self.monitors@)[k]));
            }
            crate::geometry::lemma_scale_fraction_wf(
                spec_rects(self.monitors@),
                CANVAS_W as int,
                CANVAS_H as int,
            );
        }
        let cx = clamp_coord(new_x);
        let cy = clamp_coord(new_y);

        let th64 = (SNAP_VISUAL_BUDGET as u64 * self.scale.den as u64) / (self.scale.num as u64);
        let threshold = if th64 > i32::MAX as u64 {
            i32::MAX
        } else {
            th64 as i32
        };

        let ghost ms = self.monitors@;
        let mut others: Vec<Rect> = Vec::new();
        let mut k: usize = 0;
        while k < n
            invariant
                n == self.monitors@.len(),
                self.monitors@ == ms,
                idx < n,
                0 <= k <= n,
                others@.len() == if k <= idx { k as int } else { k - 1 },
                forall|j: int|
                    0 <= j < others@.len() ==> #[trigger] others@[j] == spec_rects(ms).remove(
                        idx as int,
                    )[j],
            decreases n - k,
        {
            if k != idx {
                let m = &self.monitors[k];
                others.push((m.x, m.y, m.width, m.height));
                proof {
                    let r = spec_rects(ms).remove(idx as int);
                    if k < idx {
                        assert(r[k as int] == spec_rects(ms)[k as int]);
                    } else {
                        assert(r[k - 1] == spec_rects(ms)[k as int]);
                    }
                }
            }
            k = k + 1;
        }
        proof {
            assert(others@ =~= spec_rects(ms).remove(idx as int));
            assert forall|j: int| 0 <= j < others@.len() implies rect_in_bounds(
                #[trigger] others@[j],
            ) by {
                let r = spec_rects(ms).remove(idx as int);
                if j < idx {
                    assert(r[j] == spec_rects(ms)[j]);
                    assert(crate::monitor::monitor_wf(views_of(ms)[j]));
                } else {
                    assert(r[j] == spec_rects(ms)[j + 1]);
                    assert(crate::monitor::monitor_wf(views_of(ms)[j + 1]));
                }
            }
            assert(crate::monitor::monitor_wf(views_of(ms)[idx as int]));
        }
        let w = self.monitors[idx].width;
        let h = self.monitors[idx].height;
        let (sx, sy) = crate::geometry::snap_to_nearest_edge(
            cx,
            cy,
            w,
            h,
            others.as_slice(),
            threshold,
        );
        let (fx, fy) = if -COORD_LIMIT <= sx && sx <= COORD_LIMIT && -COORD_LIMIT <= sy && sy
            <= COORD_LIMIT {
            (sx, sy)
        } else {
            (cx, cy)
        };
        self.monitors[idx].x = fx;
        self.monitors[idx].y = fy;
        proof {
            let vs = views_of(ms);
            let th = spec_snap_threshold(old(self).scale.num as int, old(self).scale.den as int);
            let t = spec_move_target(ms, idx as int, new_x as int, new_y as int, th);
            assert(views_of(self.monitors@) =~~= vs.update(
                idx as int,
                MonitorV { x: t.0, y: t.1, ..vs[idx as int] },
            ));
            assert forall|i: int| 0 <= i < views_of(self.monitors@).len() implies
                crate::monitor::monitor_wf(#[trigger] views_of(self.monitors@)[i]) by {
                if i != idx {
                    assert(views_of(self.monitors@)[i] == vs[i]);
                }
            }
        }
        self.recalc_canvas();
    }

    /// Overwrite one monitor's resolution and refresh rate with an entry of
    /// its own mode catalogue, then recompute the canvas transform. Indices
    /// out of range leave the session untouched.
    pub fn change_resolution(&mut self, mon_idx: usize, mode_idx: usize)
        requires
            session_wf(old(self)),
        ensures
            session_wf(final(self)),
            final(self).backend == old(self).backend,
            final(self).baseline == old(self).baseline,
            final(self).primary == old(self).primary,
            ({
                let vs = views_of(old(self).monitors@);
                if mon_idx < vs.len() && mode_idx < vs[mon_idx as int].available_modes.len() {
                    let md = vs[mon_idx as int].available_modes[mode_idx as int];
                    views_of(final(self).monitors@) == vs.update(
                        mon_idx as int,
                        MonitorV {
                            width: md.width,
                            height: md.height,
                            refresh_chz: md.refresh_chz,
                            ..vs[mon_idx as int]
                        },
                    )
                } else {
                    *final(self) == *old(self)
                }
            }),
    {
        let n = self.monitors.len();
        if mon_idx >= n {
            return ;
        }
        if mode_idx >= self.monitors[mon_idx].available_modes.len() {
            return ;
        }
        let ghost vs = views_of(self.monitors@);
        let md = self.monitors[mon_idx].available_modes[mode_idx].clone();
        self.monitors[mon_idx].width = md.width;
        self.monitors[mon_idx].height = md.height;
        self.monitors[mon_idx].refresh_chz = md.refresh_chz;
        proof {
            let mdv = vs[mon_idx as int].available_modes[mode_idx as int];
            assert(views_of(self.monitors@) =~~= vs.update(
                mon_idx as int,
                MonitorV {
                    width: mdv.width,
                    height: mdv.height,
                    refresh_chz: mdv.refresh_chz,
                    ..vs[mon_idx as int]
                },
            ));
            assert(crate::monitor::monitor_wf(vs[mon_idx as int]));
            assert(crate::monitor::mode_wf(mdv));
            assert forall|i: int| 0 <= i < views_of(self.monitors@).len() implies
                crate::monitor::monitor_wf(#[trigger] views_of(self.monitors@)[i]) by {
                if i != mon_idx {
                    assert(views_of(self.monitors@)[i] == vs[i]);
                }
            }
        }
        self.recalc_canvas();
    }

    /// Overwrite one monitor's render scale (in hundredths of the
    /// multiplier), then recompute the canvas transform. An index out of
    /// range leaves the session untouched.
    pub fn change_scale(&mut self, mon_idx: usize, scale_pct: i32)
        requires
            session_wf(old(self)),
            0 < scale_pct <= crate::monitor::SCALE_LIMIT_PCT,
        ensures
            session_wf(final(self)),
            final(self).backend == old(self).backend,
            final(self).baseline == old(self).baseline,
            final(self).primary == old(self).primary,
            ({
                let vs = views_of(old(self).monitors@);
                if mon_idx < vs.len() {
                    views_of(final(self).monitors@) == vs.update(
                        mon_idx as int,
                        MonitorV { scale_pct: scale_pct as int, ..vs[mon_idx as int] },
                    )
                } else {
                    *final(self) == *old(self)
                }
            }),
    {
        let n = self.monitors.len();
        if mon_idx >= n {
            return ;
        }
        let ghost vs = views_of(self.monitors@);
        self.monitors[mon_idx].scale_pct = scale_pct;
        proof {
            assert(views_of(self.monitors@) =~~= vs.update(
                mon_idx as int,
                MonitorV { scale_pct: scale_pct as int, ..vs[mon_idx as int] },
            ));
            assert forall|i: int| 0 <= i < views_of(self.monitors@).len() implies
                crate::monitor::monitor_wf(#[trigger] views_of(self.monitors@)[i]) by {
                if i != mon_idx {
                    assert(views_of(self.monitors@)[i] == vs[i]);
                }
            }
        }
        self.recalc_canvas();
    }

    /// Make the monitor at the given index the session's primary and tell
    /// the backend immediately; this is a live action independent of any
    /// pending geometry edits, with its own success or failure. An index
    /// out of range leaves the session untouched.
    pub fn set_primary(&mut self, mon_idx: usize) -> (r: Result<(), String>)
        requires
            session_wf(old(self)),
        ensures
            session_wf(final(self)),
            final(self).backend == old(self).backend,
            final(self).monitors == old(self).monitors,
            final(self).baseline == old(self).baseline,
            final(self).scale == old(self).scale,
            mon_idx < old(self).monitors@.len() ==> final(self).primary@ == views_of(
                old(self).monitors@,
            )[mon_idx as int].name,
            mon_idx >= old(self).monitors@.len() ==> *final(self) == *old(self) && r is Ok,
    {
        if mon_idx >= self.monitors.len() {
            return Ok(());
        }
        self.primary = self.monitors[mon_idx].name.clone();
        let r = self.backend.set_primary(self.primary.as_str());
        r
    }

    /// Project one monitor into canvas pixels: position relative to the
    /// bounding-box origin, scaled by the canvas fraction, offset by the
    /// canvas margin; width and height scaled the same way.
    pub fn canvas_rect(&self, idx: usize) -> (r: (i32, i32, i32, i32))
        requires
            session_wf(self),
            idx < self.monitors@.len(),
        ensures
            (r.0 as int, r.1 as int, r.2 as int, r.3 as int) == spec_canvas_rect(
                views_of(self.monitors@)[idx as int],
                self.min_x as int,
                self.min_y as int,
                self.scale.num as int,
                self.scale.den as int,
            ),
    {
        proof {
            assert forall|k: int| 0 <= k < spec_rects(self.monitors@).len() implies rect_in_bounds(
                #[trigger] spec_rects(self.monitors@)[k],
            ) by {
                assert(crate::monitor::monitor_wf(views_of(self.monitors@)[k]));
            }
            crate::geometry::lemma_bb_encloses(spec_rects(self.monitors@));
            crate::geometry::lemma_scale_fraction_wf(
                spec_rects(self.monitors@),
                CANVAS_W as int,
                CANVAS_H as int,
            );
            assert(spec_rects(self.monitors@)[idx as int].0 == self.monitors@[idx as int].x);
        }
        let m = &self.monitors[idx];
        let num = self.scale.num;
        let den = self.scale.den;
        let cx = scale_project(m.x as i64 - self.min_x as i64, num, den) + crate::CANVAS_MARGIN
            as i64;
        let cy = scale_project(m.y as i64 - self.min_y as i64, num, den) + crate::CANVAS_MARGIN
            as i64;
        let cw = scale_project(m.width as i64, num, den);
        let ch = scale_project(m.height as i64, num, den);
        (cx as i32, cy as i32, cw as i32, ch as i32)
    }

    /// Map a canvas position back to virtual space: the inverse of the
    /// canvas projection, truncating toward zero like the projection a drag
    /// handler applies, saturated to the machine integer range.
    pub fn virtual_from_canvas(&self, canvas_x: i32, canvas_y: i32) -> (r: (i32, i32))
        requires
            session_wf(self),
        ensures
            r.0 as int == spec_virtual_from_canvas(
                canvas_x as int,
                self.min_x as int,
                self.scale.num as int,
                self.scale.den as int,
            ),
            r.1 as int == spec_virtual_from_canvas(
                canvas_y as int,
                self.min_y as int,
                self.scale.num as int,
                self.scale.den as int,
            ),
    {
        proof {
            assert forall|k: int| 0 <= k < spec_rects(self.monitors@).len() implies rect_in_bounds(
                #[trigger] spec_rects(self.monitors@)[k],
            ) by {
                assert(crate::monitor::monitor_wf(views_of(self.monitors@)[k]));
            }
            crate::geometry::lemma_scale_fraction_wf(
                spec_rects(self.monitors@),
                CANVAS_W as int,
                CANVAS_H as int,
            );
        }
        let vx = unscale_axis(canvas_x, self.min_x, self.scale.num, self.scale.den);
        let vy = unscale_axis(canvas_y, self.min_y, self.scale.num, self.scale.den);
        (vx, vy)
    }

    /// Push the current set to the backend. On a successful live push the
    /// baseline becomes a copy of the current set — the session is clean —
    /// whether or not the subsequent save to durable storage succeeded; a
    /// failed save is reported distinctly. On a failed live push nothing is
    /// committed and the session stays as it was.
    pub fn apply(&mut self) -> (r: ApplyOutcome)
        requires
            session_wf(old(self)),
        ensures
            session_wf(final(self)),
            final(self).backend == old(self).backend,
            final(self).monitors == old(self).monitors,
            final(self).primary == old(self).primary,
            final(self).scale == old(self).scale,
            final(self).min_x == old(self).min_x,
            final(self).min_y == old(self).min_y,
            !(r matches ApplyOutcome::Failed { .. }) ==> views_of(final(self).baseline@)
                == views_of(final(self).monitors@) && !sets_differ(
                views_of(final(self).monitors@),
                views_of(final(self).baseline@),
            ),
            r matches ApplyOutcome::Failed { .. } ==> final(self).baseline == old(self).baseline,
    {
        let configs = self.configs_from_current();
        match self.backend.apply(configs.as_slice()) {
            Ok(_) => {
                self.baseline = clone_monitors(&self.monitors);
                proof {
                    lemma_identical_sets_clean(views_of(self.monitors@));
                }
                match self.backend.persist(configs.as_slice()) {
                    Ok(path) => ApplyOutcome::Applied { path },
                    Err(error) => ApplyOutcome::AppliedNotSaved { error },
                }
            },
            Err(error) => ApplyOutcome::Failed { error },
        }
    }

    /// Ask the backend to visually identify the current monitors;
    /// best-effort, the result only feeds a status line.
    pub fn identify(&self) -> Result<(), String> {
        self.backend.identify(self.monitors.as_slice())
    }

    /// Derive the configuration list the current set describes, in order.
    pub fn configs_from_current(&self) -> (r: Vec<MonitorConfig>)
        ensures
            r@.len() == self.monitors@.len(),
            forall|i: int|
                0 <= i < r@.len() ==> (#[trigger] r@[i])@ == crate::monitor::spec_config_of(
                    views_of(self.monitors@)[i],
                ),
    {
        let mut r: Vec<MonitorConfig> = Vec::new();
        let n = self.monitors.len();
        let mut i: usize = 0;
        while i < n
            invariant
                n == self.monitors@.len(),
                0 <= i <= n,
                r@.len() == i,
                forall|k: int|
                    0 <= k < i ==> (#[trigger] r@[k])@ == crate::monitor::spec_config_of(
                        views_of(self.monitors@)[k],
                    ),
            decreases n - i,
        {
            r.push(crate::monitor::config_from_monitor(&self.monitors[i]));
            i = i + 1;
        }
        r
    }
}

} // verus!
