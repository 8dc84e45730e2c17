//! Pure geometry: edge snapping for a dragged monitor, and the uniform
//! scale factor that projects the whole monitor set onto a fixed canvas.

use vstd::prelude::*;
use crate::{abs_int, manhattan, CANVAS_MARGIN, COORD_LIMIT};

verus! {

/// A rectangle in virtual space: `(x, y, width, height)`.
pub type Rect = (i32, i32, i32, i32);

/// One rectangle's coordinates stay inside the engine's bounds.
pub open spec fn rect_in_bounds(r: Rect) -> bool {
    &&& -COORD_LIMIT <= r.0 <= COORD_LIMIT
    &&& -COORD_LIMIT <= r.1 <= COORD_LIMIT
    &&& 0 <= r.2 <= COORD_LIMIT
    &&& 0 <= r.3 <= COORD_LIMIT
}

/// The one bound the bounding-box arithmetic itself needs: non-negative
/// sizes whose far corner still fits in the machine integers.
pub open spec fn rect_corner_fits(r: Rect) -> bool {
    &&& 0 <= r.2
    &&& 0 <= r.3
    &&& r.0 + r.2 <= i32::MAX
    &&& r.1 + r.3 <= i32::MAX
}

/// The eight positions a dragged monitor `(dx, dy, dw, dh)` may snap to
/// relative to one other monitor `o`: the four adjacency placements (an edge
/// of the dragged monitor touching an edge of the other) and the four
/// alignment placements (tops, bottoms, lefts or rights aligned), keeping
/// the perpendicular coordinate unchanged.
pub open spec fn snap_candidates(dx: int, dy: int, dw: int, dh: int, o: Rect) -> Seq<(int, int)> {
    let ox = o.0 as int;
    let oy = o.1 as int;
    let ow = o.2 as int;
    let oh = o.3 as int;
    seq![
        (ox - dw, dy),
        (ox + ow, dy),
        (dx, oy - dh),
        (dx, oy + oh),
        (dx, oy),
        (dx, oy + oh - dh),
        (ox, dy),
        (ox + ow - dw, dy),
    ]
}

/// Running state of the snap search: best position so far and its Manhattan
/// distance from the original position (`i64::MAX` until a candidate under
/// the threshold has been seen).
pub open spec fn snap_step(
    acc: (int, int, int),
    c: (int, int),
    ox: int,
    oy: int,
    th: int,
) -> (int, int, int) {
    let d = manhattan(c.0, c.1, ox, oy);
    if d < acc.2 && d < th {
        (c.0, c.1, d)
    } else {
        acc
    }
}

/// Fold `snap_step` over a candidate list, first candidate first.
pub open spec fn snap_fold(
    cands: Seq<(int, int)>,
    acc: (int, int, int),
    ox: int,
    oy: int,
    th: int,
) -> (int, int, int)
    decreases cands.len(),
{
    if cands.len() == 0 {
        acc
    } else {
        snap_fold(cands.drop_first(), snap_step(acc, cands[0], ox, oy, th), ox, oy, th)
    }
}

/// Fold the snap search over every other monitor, in input order.
pub open spec fn snap_over(
    others: Seq<Rect>,
    acc: (int, int, int),
    dx: int,
    dy: int,
    dw: int,
    dh: int,
    th: int,
) -> (int, int, int)
    decreases others.len(),
{
    if others.len() == 0 {
        acc
    } else {
        snap_over(
            others.drop_first(),
            snap_fold(snap_candidates(dx, dy, dw, dh, others[0]), acc, dx, dy, th),
            dx,
            dy,
            dw,
            dh,
            th,
        )
    }
}

/// The position `snap_to_nearest_edge` returns for the given input.
pub open spec fn spec_snap(
    dx: int,
    dy: int,
    dw: int,
    dh: int,
    others: Seq<Rect>,
    th: int,
) -> (int, int) {
    let r = snap_over(others, (dx, dy, i64::MAX as int), dx, dy, dw, dh, th);
    (r.0, r.1)
}

/// Edge snapping: given a monitor being dragged to `(dragged_x, dragged_y)`,
/// pull it onto the globally closest of the eight candidate positions each
/// other monitor offers, provided that candidate is strictly closer than
/// `threshold` (Manhattan distance); otherwise return the position unchanged.
/// First-found wins on exact ties, so the result is deterministic.
pub fn snap_to_nearest_edge(
    dragged_x: i32,
    dragged_y: i32,
    dragged_w: i32,
    dragged_h: i32,
    others: &[Rect],
    threshold: i32,
) -> (r: (i32, i32))
    requires
        rect_in_bounds((dragged_x, dragged_y, dragged_w, dragged_h)),
        forall|i: int| 0 <= i < others@.len() ==> rect_in_bounds(#[trigger] others@[i]),
    ensures
        (r.0 as int, r.1 as int) == spec_snap(
            dragged_x as int,
            dragged_y as int,
            dragged_w as int,
            dragged_h as int,
            others@,
            threshold as int,
        ),
{
    let mut best_x: i32 = dragged_x;
    let mut best_y: i32 = dragged_y;
    let mut best_dist: i64 = i64::MAX;

    let ghost dxg = dragged_x as int;
    let ghost dyg = dragged_y as int;
    let ghost dwg = dragged_w as int;
    let ghost dhg = dragged_h as int;
    let ghost thg = threshold as int;

    let n = others.len();
    assert(others@.skip(0) == others@);
    let mut i: usize = 0;
    while i < n
        invariant
            n == others@.len(),
            0 <= i <= n,
            rect_in_bounds((dragged_x, dragged_y, dragged_w, dragged_h)),
            forall|k: int| 0 <= k < others@.len() ==> rect_in_bounds(#[trigger] others@[k]),
            -2 * COORD_LIMIT <= best_x <= 2 * COORD_LIMIT,
            -2 * COORD_LIMIT <= best_y <= 2 * COORD_LIMIT,
            dxg == dragged_x as int && dyg == dragged_y as int,
            dwg == dragged_w as int && dhg == dragged_h as int,
            thg == threshold as int,
            snap_over(others@.skip(i as int), (best_x as int, best_y as int, best_dist as int),
                dxg, dyg, dwg, dhg, thg)
                == snap_over(others@, (dxg, dyg, i64::MAX as int), dxg, dyg, dwg, dhg, thg),
        decreases n - i,
    {
        let (ox, oy, ow, oh) = others[i];
        let cands: [(i32, i32); 8] = [
            (ox - dragged_w, dragged_y),
            (ox + ow, dragged_y),
            (dragged_x, oy - dragged_h),
            (dragged_x, oy + oh),
            (dragged_x, oy),
            (dragged_x, oy + oh - dragged_h),
            (ox, dragged_y),
            (ox + ow - dragged_w, dragged_y),
        ];
        let ghost cseq = snap_candidates(dxg, dyg, dwg, dhg, others@[i as int]);
        assert(cseq.len() == 8);
        assert(forall|j: int| 0 <= j < 8 ==> cands@[j].0 as int == #[trigger] cseq[j].0
            && cands@[j].1 as int == cseq[j].1);
        let ghost bx0 = best_x as int;
        let ghost by0 = best_y as int;
        let ghost bd0 = best_dist as int;
        assert(cseq.skip(0) == cseq);

        let mut j: usize = 0;
        while j < 8
            invariant
                0 <= j <= 8,
                cseq.len() == 8,
                cands@.len() == 8,
                forall|k: int| 0 <= k < 8 ==> cands@[k].0 as int == #[trigger] cseq[k].0
                    && cands@[k].1 as int == cseq[k].1,
                forall|k: int| 0 <= k < 8 ==> -2 * COORD_LIMIT <= #[trigger] cands@[k].0
                    <= 2 * COORD_LIMIT && -2 * COORD_LIMIT <= cands@[k].1 <= 2 * COORD_LIMIT,
                -2 * COORD_LIMIT <= best_x <= 2 * COORD_LIMIT,
                -2 * COORD_LIMIT <= best_y <= 2 * COORD_LIMIT,
                -COORD_LIMIT <= dragged_x <= COORD_LIMIT,
                -COORD_LIMIT <= dragged_y <= COORD_LIMIT,
                dxg == dragged_x as int && dyg == dragged_y as int && thg == threshold as int,
                snap_fold(cseq.skip(j as int), (best_x as int, best_y as int, best_dist as int),
                    dxg, dyg, thg)
                    == snap_fold(cseq, (bx0, by0, bd0), dxg, dyg, thg),
            decreases 8 - j,
        {
            let (cx, cy) = cands[j];
            let ddx = cx as i64 - dragged_x as i64;
            let dxa = if ddx < 0 { -ddx } else { ddx };
            let ddy = cy as i64 - dragged_y as i64;
            let dya = if ddy < 0 { -ddy } else { ddy };
            let dist = dxa + dya;
            assert(dist as int == manhattan(cx as int, cy as int, dxg, dyg));
            assert(cseq.skip(j as int)[0] == cseq[j as int]);
            assert(cseq.skip(j as int).drop_first() == cseq.skip(j as int + 1));
            if dist < best_dist && dist < threshold as i64 {
                best_dist = dist;
                best_x = cx;
                best_y = cy;
            }
            j = j + 1;
        }
        assert(cseq.skip(8).len() == 0);
        assert(others@.skip(i as int)[0] == others@[i as int]);
        assert(others@.skip(i as int).drop_first() == others@.skip(i as int + 1));
        i = i + 1;
    }
    assert(others@.skip(n as int).len() == 0);
    (best_x, best_y)
}

/// The running state of the snap search is either still the untouched
/// original position, or a position whose recorded distance is its true
/// Manhattan distance from the original and lies under the threshold.
pub open spec fn snap_acc_ok(acc: (int, int, int), ox: int, oy: int, th: int) -> bool {
    ||| (acc.0 == ox && acc.1 == oy && acc.2 == i64::MAX as int)
    ||| (manhattan(acc.0, acc.1, ox, oy) == acc.2 && acc.2 < th)
}

proof fn lemma_fold_acc_ok(cands: Seq<(int, int)>, acc: (int, int, int), ox: int, oy: int, th: int)
    requires
        snap_acc_ok(acc, ox, oy, th),
    ensures
        snap_acc_ok(snap_fold(cands, acc, ox, oy, th), ox, oy, th),
    decreases cands.len(),
{
    if cands.len() > 0 {
        lemma_fold_acc_ok(cands.drop_first(), snap_step(acc, cands[0], ox, oy, th), ox, oy, th);
    }
}

proof fn lemma_over_acc_ok(
    others: Seq<Rect>,
    acc: (int, int, int),
    dx: int,
    dy: int,
    dw: int,
    dh: int,
    th: int,
)
    requires
        snap_acc_ok(acc, dx, dy, th),
    ensures
        snap_acc_ok(snap_over(others, acc, dx, dy, dw, dh, th), dx, dy, th),
    decreases others.len(),
{
    if others.len() > 0 {
        lemma_fold_acc_ok(snap_candidates(dx, dy, dw, dh, others[0]), acc, dx, dy, th);
        lemma_over_acc_ok(
            others.drop_first(),
            snap_fold(snap_candidates(dx, dy, dw, dh, others[0]), acc, dx, dy, th),
            dx,
            dy,
            dw,
            dh,
            th,
        );
    }
}

/// The snap search never moves the monitor to a position at Manhattan
/// distance `threshold` or more from where it was dragged: it returns
/// either the dragged position itself or a position strictly under the
/// threshold.
pub proof fn lemma_snap_within_threshold(
    dx: int,
    dy: int,
    dw: int,
    dh: int,
    others: Seq<Rect>,
    th: int,
)
    ensures
        ({
            let r = spec_snap(dx, dy, dw, dh, others, th);
            r == (dx, dy) || manhattan(r.0, r.1, dx, dy) < th
        }),
{
    lemma_over_acc_ok(others, (dx, dy, i64::MAX as int), dx, dy, dw, dh, th);
}

proof fn lemma_fold_min(cands: Seq<(int, int)>, acc: (int, int, int), ox: int, oy: int, th: int)
    ensures
        ({
            let r = snap_fold(cands, acc, ox, oy, th);
            &&& r.2 <= acc.2
            &&& forall|j: int|
                0 <= j < cands.len() && manhattan((#[trigger] cands[j]).0, cands[j].1, ox, oy) < th
                    ==> r.2 <= manhattan(cands[j].0, cands[j].1, ox, oy)
        }),
    decreases cands.len(),
{
    if cands.len() > 0 {
        let acc1 = snap_step(acc, cands[0], ox, oy, th);
        lemma_fold_min(cands.drop_first(), acc1, ox, oy, th);
        assert(forall|j: int| 0 <= j < cands.drop_first().len() ==> cands.drop_first()[j]
            == cands[j + 1]);
        let r = snap_fold(cands, acc, ox, oy, th);
        assert forall|j: int|
            0 <= j < cands.len() && manhattan((#[trigger] cands[j]).0, cands[j].1, ox, oy) < th
                implies r.2 <= manhattan(cands[j].0, cands[j].1, ox, oy) by {
            if j == 0 {
                assert(acc1.2 <= manhattan(cands[0].0, cands[0].1, ox, oy));
            } else {
                assert(cands.drop_first()[j - 1] == cands[j]);
            }
        }
    }
}

proof fn lemma_over_min(
    others: Seq<Rect>,
    acc: (int, int, int),
    dx: int,
    dy: int,
    dw: int,
    dh: int,
    th: int,
)
    ensures
        ({
            let r = snap_over(others, acc, dx, dy, dw, dh, th);
            &&& r.2 <= acc.2
            &&& forall|k: int, j: int|
                0 <= k < others.len() && 0 <= j < 8 && manhattan(
                    (#[trigger] snap_candidates(dx, dy, dw, dh, others[k])[j]).0,
                    snap_candidates(dx, dy, dw, dh, others[k])[j].1,
                    dx,
                    dy,
                ) < th ==> r.2 <= manhattan(
                    snap_candidates(dx, dy, dw, dh, others[k])[j].0,
                    snap_candidates(dx, dy, dw, dh, others[k])[j].1,
                    dx,
                    dy,
                )
        }),
    decreases others.len(),
{
    if others.len() > 0 {
        let cands0 = snap_candidates(dx, dy, dw, dh, others[0]);
        let acc1 = snap_fold(cands0, acc, dx, dy, th);
        lemma_fold_min(cands0, acc, dx, dy, th);
        lemma_over_min(others.drop_first(), acc1, dx, dy, dw, dh, th);
        assert(forall|k: int| 0 <= k < others.drop_first().len() ==> others.drop_first()[k]
            == others[k + 1]);
        let r = snap_over(others, acc, dx, dy, dw, dh, th);
        assert forall|k: int, j: int|
            0 <= k < others.len() && 0 <= j < 8 && manhattan(
                (#[trigger] snap_candidates(dx, dy, dw, dh, others[k])[j]).0,
                snap_candidates(dx, dy, dw, dh, others[k])[j].1,
                dx,
                dy,
            ) < th implies r.2 <= manhattan(
            snap_candidates(dx, dy, dw, dh, others[k])[j].0,
            snap_candidates(dx, dy, dw, dh, others[k])[j].1,
            dx,
            dy,
        ) by {
            if k == 0 {
                assert(acc1.2 <= manhattan(cands0[j].0, cands0[j].1, dx, dy));
            } else {
                assert(others.drop_first()[k - 1] == others[k]);
            }
        }
    }
}

/// The snap search picks a globally closest candidate: whenever any other
/// monitor offers a placement strictly under the threshold, the returned
/// position lies no farther from the dragged position than that placement.
pub proof fn lemma_snap_picks_closest(
    dx: int,
    dy: int,
    dw: int,
    dh: int,
    others: Seq<Rect>,
    th: int,
    k: int,
    j: int,
)
    requires
        0 <= k < others.len(),
        0 <= j < 8,
        manhattan(
            snap_candidates(dx, dy, dw, dh, others[k])[j].0,
            snap_candidates(dx, dy, dw, dh, others[k])[j].1,
            dx,
            dy,
        ) < th,
    ensures
        ({
            let r = spec_snap(dx, dy, dw, dh, others, th);
            manhattan(r.0, r.1, dx, dy) <= manhattan(
                snap_candidates(dx, dy, dw, dh, others[k])[j].0,
                snap_candidates(dx, dy, dw, dh, others[k])[j].1,
                dx,
                dy,
            )
        }),
{
    let init = (dx, dy, i64::MAX as int);
    lemma_over_acc_ok(others, init, dx, dy, dw, dh, th);
    lemma_over_min(others, init, dx, dy, dw, dh, th);
    let full = snap_over(others, init, dx, dy, dw, dh, th);
    let d = manhattan(
        snap_candidates(dx, dy, dw, dh, others[k])[j].0,
        snap_candidates(dx, dy, dw, dh, others[k])[j].1,
        dx,
        dy,
    );
    assert(full.2 <= d);
    if full.0 == dx && full.1 == dy && full.2 == i64::MAX as int {
        assert(manhattan(full.0, full.1, dx, dy) == 0);
    } else {
        assert(manhattan(full.0, full.1, dx, dy) == full.2);
    }
}

proof fn lemma_fold_unmoved(cands: Seq<(int, int)>, acc: (int, int, int), ox: int, oy: int, th: int)
    requires
        forall|j: int| 0 <= j < cands.len() ==> manhattan(
            #[trigger] cands[j].0,
            cands[j].1,
            ox,
            oy,
        ) >= th,
    ensures
        snap_fold(cands, acc, ox, oy, th) == acc,
    decreases cands.len(),
{
    if cands.len() > 0 {
        assert(snap_step(acc, cands[0], ox, oy, th) == acc);
        lemma_fold_unmoved(cands.drop_first(), acc, ox, oy, th);
    }
}

/// When every candidate that every other monitor offers lies at Manhattan
/// distance `threshold` or more, the snap search returns the dragged
/// position unchanged.
pub proof fn lemma_snap_no_candidate_unchanged(
    dx: int,
    dy: int,
    dw: int,
    dh: int,
    others: Seq<Rect>,
    th: int,
)
    requires
        forall|k: int, j: int|
            0 <= k < others.len() && 0 <= j < 8 ==> manhattan(
                (#[trigger] snap_candidates(dx, dy, dw, dh, others[k])[j]).0,
                snap_candidates(dx, dy, dw, dh, others[k])[j].1,
                dx,
                dy,
            ) >= th,
    ensures
        spec_snap(dx, dy, dw, dh, others, th) == (dx, dy),
    decreases others.len(),
{
    lemma_over_unmoved(others, (dx, dy, i64::MAX as int), dx, dy, dw, dh, th);
}

proof fn lemma_over_unmoved(
    others: Seq<Rect>,
    acc: (int, int, int),
    dx: int,
    dy: int,
    dw: int,
    dh: int,
    th: int,
)
    requires
        forall|k: int, j: int|
            0 <= k < others.len() && 0 <= j < 8 ==> manhattan(
                (#[trigger] snap_candidates(dx, dy, dw, dh, others[k])[j]).0,
                snap_candidates(dx, dy, dw, dh, others[k])[j].1,
                dx,
                dy,
            ) >= th,
    ensures
        snap_over(others, acc, dx, dy, dw, dh, th) == acc,
    decreases others.len(),
{
    if others.len() > 0 {
        assert(forall|j: int| 0 <= j < 8 ==> manhattan(
            (#[trigger] snap_candidates(dx, dy, dw, dh, others[0])[j]).0,
            snap_candidates(dx, dy, dw, dh, others[0])[j].1,
            dx,
            dy,
        ) >= th);
        lemma_fold_unmoved(snap_candidates(dx, dy, dw, dh, others[0]), acc, dx, dy, th);
        assert(forall|k: int, j: int|
            0 <= k < others.drop_first().len() && 0 <= j < 8 ==> others.drop_first()[k]
                == others[k + 1] && manhattan(
                (#[trigger] snap_candidates(dx, dy, dw, dh, others.drop_first()[k])[j]).0,
                snap_candidates(dx, dy, dw, dh, others.drop_first()[k])[j].1,
                dx,
                dy,
            ) >= th);
        lemma_over_unmoved(others.drop_first(), acc, dx, dy, dw, dh, th);
    }
}

proof fn lemma_fold_zero_stays(
    cands: Seq<(int, int)>,
    acc: (int, int, int),
    ox: int,
    oy: int,
    th: int,
)
    requires
        acc.2 == 0,
    ensures
        snap_fold(cands, acc, ox, oy, th) == acc,
    decreases cands.len(),
{
    if cands.len() > 0 {
        assert(manhattan(cands[0].0, cands[0].1, ox, oy) >= 0);
        lemma_fold_zero_stays(cands.drop_first(), acc, ox, oy, th);
    }
}

proof fn lemma_over_zero_stays(
    others: Seq<Rect>,
    acc: (int, int, int),
    dx: int,
    dy: int,
    dw: int,
    dh: int,
    th: int,
)
    requires
        acc.2 == 0,
    ensures
        snap_over(others, acc, dx, dy, dw, dh, th) == acc,
    decreases others.len(),
{
    if others.len() > 0 {
        lemma_fold_zero_stays(snap_candidates(dx, dy, dw, dh, others[0]), acc, dx, dy, th);
        lemma_over_zero_stays(others.drop_first(), acc, dx, dy, dw, dh, th);
    }
}

proof fn lemma_fold_hits_origin(
    cands: Seq<(int, int)>,
    acc: (int, int, int),
    ox: int,
    oy: int,
    th: int,
    j: int,
)
    requires
        0 <= j < cands.len(),
        cands[j] == (ox, oy),
        th >= 1,
        snap_acc_ok(acc, ox, oy, th),
    ensures
        snap_fold(cands, acc, ox, oy, th) == (ox, oy, 0int),
    decreases j,
{
    if j == 0 {
        let acc1 = snap_step(acc, cands[0], ox, oy, th);
        assert(manhattan(ox, oy, ox, oy) == 0);
        assert(acc1 == (ox, oy, 0int));
        lemma_fold_zero_stays(cands.drop_first(), acc1, ox, oy, th);
    } else {
        let acc1 = snap_step(acc, cands[0], ox, oy, th);
        assert(snap_acc_ok(acc1, ox, oy, th));
        assert(cands.drop_first()[j - 1] == cands[j]);
        lemma_fold_hits_origin(cands.drop_first(), acc1, ox, oy, th, j - 1);
    }
}

proof fn lemma_over_hits_origin(
    others: Seq<Rect>,
    acc: (int, int, int),
    dx: int,
    dy: int,
    dw: int,
    dh: int,
    th: int,
    k: int,
    j: int,
)
    requires
        0 <= k < others.len(),
        0 <= j < 8,
        snap_candidates(dx, dy, dw, dh, others[k])[j] == (dx, dy),
        th >= 1,
        snap_acc_ok(acc, dx, dy, th),
    ensures
        snap_over(others, acc, dx, dy, dw, dh, th) == (dx, dy, 0int),
    decreases k,
{
    let cands0 = snap_candidates(dx, dy, dw, dh, others[0]);
    if k == 0 {
        lemma_fold_hits_origin(cands0, acc, dx, dy, th, j);
        lemma_over_zero_stays(others.drop_first(), (dx, dy, 0int), dx, dy, dw, dh, th);
    } else {
        lemma_fold_acc_ok(cands0, acc, dx, dy, th);
        assert(others.drop_first()[k - 1] == others[k]);
        lemma_over_hits_origin(
            others.drop_first(),
            snap_fold(cands0, acc, dx, dy, th),
            dx,
            dy,
            dw,
            dh,
            th,
            k - 1,
            j,
        );
    }
}

/// Snapping is idempotent at distance zero: when the dragged position is
/// already exactly one of the adjacency or alignment placements that some
/// other monitor offers, the snap search returns that same position.
/// The uniform canvas projection scale, kept as an exact fraction
/// `num / den` so the projection and its inverse stay exact integer
/// arithmetic.
pub struct CanvasScale {
    pub num: i64,
    pub den: i64,
}

/// Fold the bounding box `(min_x, min_y, max_x_plus_w, max_y_plus_h)` over a
/// rectangle list, first rectangle first.
pub open spec fn bb_fold(rs: Seq<Rect>, acc: (int, int, int, int)) -> (int, int, int, int)
    decreases rs.len(),
{
    if rs.len() == 0 {
        acc
    } else {
        let r = rs[0];
        let rx = r.0 as int;
        let ry = r.1 as int;
        let rxe = r.0 as int + r.2 as int;
        let rye = r.1 as int + r.3 as int;
        let nacc = (
            if rx < acc.0 { rx } else { acc.0 },
            if ry < acc.1 { ry } else { acc.1 },
            if rxe > acc.2 { rxe } else { acc.2 },
            if rye > acc.3 { rye } else { acc.3 },
        );
        bb_fold(rs.drop_first(), nacc)
    }
}

/// Bounding box of a monitor set in virtual space.
pub open spec fn bounding_box(rs: Seq<Rect>) -> (int, int, int, int) {
    bb_fold(rs, (i32::MAX as int, i32::MAX as int, i32::MIN as int, i32::MIN as int))
}

/// The scale `canvas_scale_factor` returns, as an exact rational: 1 for an
/// empty set or a degenerate bounding box, otherwise the smaller of the two
/// per-axis scale-to-fit ratios, capped at 1/4.
pub open spec fn spec_canvas_scale(rs: Seq<Rect>, cw: int, ch: int) -> (int, int) {
    if rs.len() == 0 {
        (1int, 1int)
    } else {
        let bb = bounding_box(rs);
        let tw = bb.2 - bb.0;
        let th = bb.3 - bb.1;
        if tw <= 0 || th <= 0 {
            (1int, 1int)
        } else {
            let sxn = cw - 2 * CANVAS_MARGIN;
            let syn = ch - 2 * CANVAS_MARGIN;
            let m = if sxn * th <= syn * tw {
                (sxn, tw)
            } else {
                (syn, th)
            };
            if m.0 * 4 > m.1 {
                (1int, 4int)
            } else {
                m
            }
        }
    }
}

/// Uniform scale factor so that all monitors fit inside the given canvas,
/// leaving `CANVAS_MARGIN` on each side. Aspect ratio is preserved (the
/// tighter axis wins) and the scale never exceeds 1/4, so a single tiny
/// monitor cannot blow up the projection. An empty set or a degenerate
/// bounding box yields the defensive default 1.
pub fn canvas_scale_factor(monitors: &[Rect], canvas_w: i32, canvas_h: i32) -> (r: CanvasScale)
    requires
        forall|i: int| 0 <= i < monitors@.len() ==> rect_corner_fits(#[trigger] monitors@[i]),
    ensures
        (r.num as int, r.den as int) == spec_canvas_scale(
            monitors@,
            canvas_w as int,
            canvas_h as int,
        ),
{
    if monitors.len() == 0 {
        return CanvasScale { num: 1, den: 1 };
    }

    let mut min_x: i32 = i32::MAX;
    let mut min_y: i32 = i32::MAX;
    let mut max_x: i32 = i32::MIN;
    let mut max_y: i32 = i32::MIN;

    let n = monitors.len();
    assert(monitors@.skip(0) == monitors@);
    let mut i: usize = 0;
    while i < n
        invariant
            n == monitors@.len(),
            0 <= i <= n,
            forall|k: int| 0 <= k < monitors@.len() ==> rect_corner_fits(#[trigger] monitors@[k]),
            bb_fold(monitors@.skip(i as int),
                (min_x as int, min_y as int, max_x as int, max_y as int))
                == bounding_box(monitors@),
        decreases n - i,
    {
        let (mx, my, mw, mh) = monitors[i];
        assert(monitors@.skip(i as int)[0] == monitors@[i as int]);
        assert(monitors@.skip(i as int).drop_first() == monitors@.skip(i as int + 1));
        if mx < min_x {
            min_x = mx;
        }
        if my < min_y {
            min_y = my;
        }
        if mx + mw > max_x {
            max_x = mx + mw;
        }
        if my + mh > max_y {
            max_y = my + mh;
        }
        i = i + 1;
    }
    assert(monitors@.skip(n as int).len() == 0);

    let total_w = max_x as i64 - min_x as i64;
    let total_h = max_y as i64 - min_y as i64;
    if total_w <= 0 || total_h <= 0 {
        return CanvasScale { num: 1, den: 1 };
    }

    let sxn = canvas_w as i64 - 2 * CANVAS_MARGIN as i64;
    let syn = canvas_h as i64 - 2 * CANVAS_MARGIN as i64;
    proof {
        assert(-0x2_0000_0000_0000_0000 <= sxn as int * total_h as int
            <= 0x2_0000_0000_0000_0000) by (nonlinear_arith)
            requires
                -0x1_0000_0000 <= sxn as int <= 0x1_0000_0000,
                0 <= total_h as int <= 0x1_0000_0000,
        ;
        assert(-0x2_0000_0000_0000_0000 <= syn as int * total_w as int
            <= 0x2_0000_0000_0000_0000) by (nonlinear_arith)
            requires
                -0x1_0000_0000 <= syn as int <= 0x1_0000_0000,
                0 <= total_w as int <= 0x1_0000_0000,
        ;
    }
    let (mn, md) = if (sxn as i128) * (total_h as i128) <= (syn as i128) * (total_w as i128) {
        (sxn, total_w)
    } else {
        (syn, total_h)
    };
    if mn * 4 > md {
        CanvasScale { num: 1, den: 4 }
    } else {
        CanvasScale { num: mn, den: md }
    }
}

/// Compute the bounding box of a non-empty monitor set.
pub fn compute_bounding_box(monitors: &[Rect]) -> (r: (i32, i32, i32, i32))
    requires
        monitors@.len() > 0,
        forall|i: int| 0 <= i < monitors@.len() ==> rect_corner_fits(#[trigger] monitors@[i]),
    ensures
        (r.0 as int, r.1 as int, r.2 as int, r.3 as int) == bounding_box(monitors@),
{
    let mut min_x: i32 = i32::MAX;
    let mut min_y: i32 = i32::MAX;
    let mut max_x: i32 = i32::MIN;
    let mut max_y: i32 = i32::MIN;

    let n = monitors.len();
    assert(monitors@.skip(0) == monitors@);
    let mut i: usize = 0;
    while i < n
        invariant
            n == monitors@.len(),
            0 <= i <= n,
            forall|k: int| 0 <= k < monitors@.len() ==> rect_corner_fits(#[trigger] monitors@[k]),
            bb_fold(monitors@.skip(i as int),
                (min_x as int, min_y as int, max_x as int, max_y as int))
                == bounding_box(monitors@),
        decreases n - i,
    {
        let (mx, my, mw, mh) = monitors[i];
        assert(monitors@.skip(i as int)[0] == monitors@[i as int]);
        assert(monitors@.skip(i as int).drop_first() == monitors@.skip(i as int + 1));
        if mx < min_x {
            min_x = mx;
        }
        if my < min_y {
            min_y = my;
        }
        if mx + mw > max_x {
            max_x = mx + mw;
        }
        if my + mh > max_y {
            max_y = my + mh;
        }
        i = i + 1;
    }
    assert(monitors@.skip(n as int).len() == 0);
    (min_x, min_y, max_x, max_y)
}

proof fn lemma_bb_fold_props(rs: Seq<Rect>, acc: (int, int, int, int))
    requires
        forall|k: int| 0 <= k < rs.len() ==> rect_in_bounds(#[trigger] rs[k]),
    ensures
        ({
            let r = bb_fold(rs, acc);
            &&& r.0 <= acc.0
            &&& r.1 <= acc.1
            &&& r.2 >= acc.2
            &&& r.3 >= acc.3
            &&& (r.0 == acc.0 || -COORD_LIMIT <= r.0 <= COORD_LIMIT)
            &&& (r.1 == acc.1 || -COORD_LIMIT <= r.1 <= COORD_LIMIT)
            &&& (r.2 == acc.2 || -COORD_LIMIT <= r.2 <= 2 * COORD_LIMIT)
            &&& (r.3 == acc.3 || -COORD_LIMIT <= r.3 <= 2 * COORD_LIMIT)
            &&& forall|k: int|
                0 <= k < rs.len() ==> r.0 <= (#[trigger] rs[k]).0 && r.1 <= rs[k].1 && r.2 >= rs[k].0 + rs[k].2 && r.3 >= rs[k].1 + rs[k].3
        }),
    decreases rs.len(),
{
    if rs.len() > 0 {
        let r0 = rs[0];
        let rx = r0.0 as int;
        let ry = r0.1 as int;
        let rxe = r0.0 as int + r0.2 as int;
        let rye = r0.1 as int + r0.3 as int;
        let nacc = (
            if rx < acc.0 { rx } else { acc.0 },
            if ry < acc.1 { ry } else { acc.1 },
            if rxe > acc.2 { rxe } else { acc.2 },
            if rye > acc.3 { rye } else { acc.3 },
        );
        lemma_bb_fold_props(rs.drop_first(), nacc);
        let r = bb_fold(rs, acc);
        assert forall|k: int| 0 <= k < rs.len() implies r.0 <= (#[trigger] rs[k]).0 && r.1
            <= rs[k].1 && r.2 >= rs[k].0 + rs[k].2 && r.3 >= rs[k].1 + rs[k].3 by {
            if k > 0 {
                assert(rs.drop_first()[k - 1] == rs[k]);
                assert(r.0 <= rs.drop_first()[k - 1].0);
                assert(r.1 <= rs.drop_first()[k - 1].1);
                assert(r.2 >= rs.drop_first()[k - 1].0 + rs.drop_first()[k - 1].2);
                assert(r.3 >= rs.drop_first()[k - 1].1 + rs.drop_first()[k - 1].3);
            }
        }
    }
}

/// The bounding box of a non-empty in-bounds monitor set: its corners stay
/// inside the engine's bounds, and it encloses every monitor.
pub proof fn lemma_bb_encloses(rs: Seq<Rect>)
    requires
        rs.len() > 0,
        forall|k: int| 0 <= k < rs.len() ==> rect_in_bounds(#[trigger] rs[k]),
    ensures
        ({
            let bb = bounding_box(rs);
            &&& -COORD_LIMIT <= bb.0 <= COORD_LIMIT
            &&& -COORD_LIMIT <= bb.1 <= COORD_LIMIT
            &&& -COORD_LIMIT <= bb.2 <= 2 * COORD_LIMIT
            &&& -COORD_LIMIT <= bb.3 <= 2 * COORD_LIMIT
            &&& forall|k: int|
                0 <= k < rs.len() ==> bb.0 <= (#[trigger] rs[k]).0 && bb.1 <= rs[k].1 && bb.2 >= rs[k].0 + rs[k].2 && bb.3 >= rs[k].1 + rs[k].3
        }),
{
    lemma_bb_fold_props(rs, (i32::MAX as int, i32::MAX as int, i32::MIN as int, i32::MIN as int));
    assert(bounding_box(rs).0 <= rs[0].0);
    assert(bounding_box(rs).2 >= rs[0].0 + rs[0].2);
}

/// The canvas scale fraction is well formed: positive, at most 1, with a
/// denominator inside the engine's bounds.
pub proof fn lemma_scale_fraction_wf(rs: Seq<Rect>, cw: int, ch: int)
    requires
        forall|k: int| 0 <= k < rs.len() ==> rect_in_bounds(#[trigger] rs[k]),
        2 * CANVAS_MARGIN < cw <= i32::MAX,
        2 * CANVAS_MARGIN < ch <= i32::MAX,
    ensures
        ({
            let s = spec_canvas_scale(rs, cw, ch);
            0 < s.0 <= s.1 <= 3 * COORD_LIMIT
        }),
{
    if rs.len() > 0 {
        lemma_bb_encloses(rs);
    }
}

/// For a non-empty monitor set whose bounding box is not degenerate, the
/// canvas scale is strictly positive and at most 1/4.
pub proof fn lemma_scale_positive_and_capped(rs: Seq<Rect>, cw: int, ch: int)
    requires
        rs.len() > 0,
        cw > 2 * CANVAS_MARGIN,
        ch > 2 * CANVAS_MARGIN,
        bounding_box(rs).2 - bounding_box(rs).0 > 0,
        bounding_box(rs).3 - bounding_box(rs).1 > 0,
    ensures
        ({
            let s = spec_canvas_scale(rs, cw, ch);
            0 < s.0 && 0 < s.1 && 4 * s.0 <= s.1
        }),
{
}

/// For an empty monitor set, or one whose bounding box has no positive
/// extent, the canvas scale is exactly 1.
pub proof fn lemma_scale_degenerate_is_one(rs: Seq<Rect>, cw: int, ch: int)
    requires
        rs.len() == 0 || bounding_box(rs).2 - bounding_box(rs).0 <= 0 || bounding_box(rs).3
            - bounding_box(rs).1 <= 0,
    ensures
        spec_canvas_scale(rs, cw, ch) == (1int, 1int),
{
}

pub proof fn lemma_snap_idempotent_at_zero(
    dx: int,
    dy: int,
    dw: int,
    dh: int,
    others: Seq<Rect>,
    th: int,
    k: int,
    j: int,
)
    requires
        0 <= k < others.len(),
        0 <= j < 8,
        snap_candidates(dx, dy, dw, dh, others[k])[j] == (dx, dy),
        th >= 1,
    ensures
        spec_snap(dx, dy, dw, dh, others, th) == (dx, dy),
{
    lemma_over_hits_origin(others, (dx, dy, i64::MAX as int), dx, dy, dw, dh, th, k, j);
}

} // verus!
