//! The blank-region search: scanning the grid for a rectangle whose sampled
//! interior holds no painted cell.

use vstd::prelude::*;
use crate::canvas::Canvas;
use crate::rng::random_below;
use vstd::math::clip;

verus! {

/// How many scan offsets are tried before the search gives up.
pub const SCAN_OFFSETS: u32 = 30;

/// The lattice step between candidate anchors tried at one offset.
pub const SCAN_STEP: usize = 30;

/// A w × h rectangle anchored at (i, j) is blank under stride q when no
/// sampled cell of its interior is painted. Sampling starts at the anchor and
/// advances q cells at a time along each axis; q == 1 samples every cell.
pub open spec fn rect_blank(c: Canvas, i: int, j: int, w: int, h: int, q: int) -> bool {
    forall|x: int, y: int|
        i <= x < i + w && j <= y < j + h && (x - i) % q == 0 && (y - j) % q == 0
            ==> !c.occupied_at(x, y)
}

/// An anchor that the scan at offset `start` with lattice step `step` tests
/// and accepts: it lies on the scan lattice, the rectangle fits strictly
/// inside the grid, and its sampled interior is blank.
pub open spec fn is_candidate(
    c: Canvas,
    w: int,
    h: int,
    q: int,
    start: int,
    step: int,
    i: int,
    j: int,
) -> bool {
    &&& start <= i < c.width - w
    &&& (i - start) % step == 0
    &&& start <= j < c.height - h
    &&& (j - start) % step == 0
    &&& rect_blank(c, i, j, w, h, q)
}

/// The anchors accepted in column i, scanning j upward from `j` in steps of
/// `step`, in scan order.
pub open spec fn column_candidates(
    c: Canvas,
    w: int,
    h: int,
    q: int,
    step: int,
    i: int,
    j: int,
) -> Seq<(u32, u32)>
    decreases clip(c.height - h - j) when step >= 1
{
    if j >= c.height - h {
        Seq::<(u32, u32)>::empty()
    } else if rect_blank(c, i, j, w, h, q) {
        seq![(i as u32, j as u32)] + column_candidates(c, w, h, q, step, i, j + step)
    } else {
        column_candidates(c, w, h, q, step, i, j + step)
    }
}

/// The anchors accepted in the columns from `i` rightward, in scan order:
/// columns left to right, and top to bottom within a column.
pub open spec fn candidates_from(
    c: Canvas,
    w: int,
    h: int,
    q: int,
    start: int,
    step: int,
    i: int,
) -> Seq<(u32, u32)>
    decreases clip(c.width - w - i) when step >= 1
{
    if i >= c.width - w {
        Seq::<(u32, u32)>::empty()
    } else {
        column_candidates(c, w, h, q, step, i, start) + candidates_from(
            c,
            w,
            h,
            q,
            start,
            step,
            i + step,
        )
    }
}

/// Every anchor that the scan at offset `start` accepts, in scan order.
pub open spec fn candidates(c: Canvas, w: int, h: int, q: int, start: int, step: int) -> Seq<
    (u32, u32),
> {
    candidates_from(c, w, h, q, start, step, start)
}

/// The candidate list the full search settles on: offsets are tried in order
/// from `start`, and the first offset whose scan accepts any anchor supplies
/// the whole list; when every offset fails the list is empty.
pub open spec fn first_candidates_from(c: Canvas, w: int, h: int, q: int, start: int) -> Seq<
    (u32, u32),
>
    decreases clip(SCAN_OFFSETS as int - start)
{
    if start >= SCAN_OFFSETS as int {
        Seq::<(u32, u32)>::empty()
    } else if candidates(c, w, h, q, start, SCAN_STEP as int).len() > 0 {
        candidates(c, w, h, q, start, SCAN_STEP as int)
    } else {
        first_candidates_from(c, w, h, q, start + 1)
    }
}

/// The candidate list of the full search, starting at offset zero.
pub open spec fn spec_first_candidates(c: Canvas, w: int, h: int, q: int) -> Seq<(u32, u32)> {
    first_candidates_from(c, w, h, q, 0)
}

/// The anchor the search returns once the random draw is replaced by a given
/// choice index: the first non-empty scan's list, indexed by the choice
/// modulo its length, or the (-1, -1) sentinel when the list is empty.
pub open spec fn chosen_blank(c: Canvas, w: int, h: int, q: int, choice: int) -> (i32, i32) {
    let cs = spec_first_candidates(c, w, h, q);
    if cs.len() == 0 {
        (-1i32, -1i32)
    } else {
        (cs[choice % cs.len() as int].0 as i32, cs[choice % cs.len() as int].1 as i32)
    }
}

proof fn lemma_step_keeps_residue(base: int, x: int, q: int)
    requires
        q >= 1,
        (x - base) % q == 0,
    ensures
        (x + q - base) % q == 0,
{
    vstd::arithmetic::div_mod::lemma_mod_add_multiples_vanish(x - base, q);
    assert(x + q - base == q + (x - base));
}

proof fn lemma_same_residue_unique(base: int, a: int, b: int, q: int)
    requires
        q >= 1,
        (a - base) % q == 0,
        (b - base) % q == 0,
        b <= a < b + q,
    ensures
        a == b,
{
    vstd::arithmetic::div_mod::lemma_mod_equivalence(a - base, b - base, q);
    assert((a - b) % q == 0);
    if a != b {
        vstd::arithmetic::div_mod::lemma_small_mod((a - b) as nat, q as nat);
        assert(false);
    }
}

/// Every anchor in a column's list carries that column's i, lies on the
/// lattice of `j`, leaves room for the rectangle, and is blank.
pub proof fn lemma_column_candidates_elems(
    c: Canvas,
    w: int,
    h: int,
    q: int,
    step: int,
    i: int,
    j: int,
)
    requires
        step >= 1,
        0 <= i <= u32::MAX,
        0 <= j,
        0 <= h,
    ensures
        forall|k: int|
            0 <= k < column_candidates(c, w, h, q, step, i, j).len() ==> {
                let e = #[trigger] column_candidates(c, w, h, q, step, i, j)[k];
                &&& e.0 == i as u32
                &&& j <= e.1 as int
                &&& (e.1 as int) < c.height - h
                &&& (e.1 as int - j) % step == 0
                &&& rect_blank(c, i, e.1 as int, w, h, q)
            },
    decreases clip(c.height - h - j),
{
    if j >= c.height - h {
    } else {
        lemma_column_candidates_elems(c, w, h, q, step, i, j + step);
        let tail = column_candidates(c, w, h, q, step, i, j + step);
        let cur = column_candidates(c, w, h, q, step, i, j);
        vstd::arithmetic::div_mod::lemma_mod_multiples_basic(0, step);
        assert forall|k: int| 0 <= k < cur.len() implies {
            let e = #[trigger] cur[k];
            &&& e.0 == i as u32
            &&& j <= e.1 as int
            &&& (e.1 as int) < c.height - h
            &&& (e.1 as int - j) % step == 0
            &&& rect_blank(c, i, e.1 as int, w, h, q)
        } by {
            assert(j < c.height - h <= u32::MAX);
            if rect_blank(c, i, j, w, h, q) {
                assert(cur == seq![(i as u32, j as u32)] + tail);
                if k == 0 {
                    assert(cur[k] == (i as u32, j as u32));
                } else {
                    assert(cur[k] == tail[k - 1]);
                    let e = tail[k - 1];
                    vstd::arithmetic::div_mod::lemma_mod_add_multiples_vanish(
                        e.1 as int - j - step,
                        step,
                    );
                    assert(step + (e.1 as int - j - step) == e.1 as int - j);
                }
            } else {
                assert(cur == tail);
                let e = tail[k];
                vstd::arithmetic::div_mod::lemma_mod_add_multiples_vanish(
                    e.1 as int - j - step,
                    step,
                );
                assert(step + (e.1 as int - j - step) == e.1 as int - j);
            }
        }
    }
}

/// Every anchor in a scan's list is a candidate of that scan.
pub proof fn lemma_candidates_from_elems(
    c: Canvas,
    w: int,
    h: int,
    q: int,
    start: int,
    step: int,
    i: int,
)
    requires
        step >= 1,
        0 <= start <= i,
        (i - start) % step == 0,
        0 <= w,
        0 <= h,
    ensures
        forall|k: int|
            0 <= k < candidates_from(c, w, h, q, start, step, i).len() ==> {
                let e = #[trigger] candidates_from(c, w, h, q, start, step, i)[k];
                is_candidate(c, w, h, q, start, step, e.0 as int, e.1 as int)
            },
    decreases clip(c.width - w - i),
{
    if i >= c.width - w {
    } else {
        let cur = candidates_from(c, w, h, q, start, step, i);
        let col = column_candidates(c, w, h, q, step, i, start);
        let rest = candidates_from(c, w, h, q, start, step, i + step);
        lemma_column_candidates_elems(c, w, h, q, step, i, start);
        lemma_step_keeps_residue(start, i, step);
        lemma_candidates_from_elems(c, w, h, q, start, step, i + step);
        assert forall|k: int| 0 <= k < cur.len() implies {
            let e = #[trigger] cur[k];
            is_candidate(c, w, h, q, start, step, e.0 as int, e.1 as int)
        } by {
            if k < col.len() {
                assert(cur[k] == col[k]);
            } else {
                assert(cur[k] == rest[k - col.len()]);
            }
        }
    }
}

/// Every anchor of the full search's list leaves room for the rectangle and
/// anchors a blank rectangle under the given stride.
pub proof fn lemma_first_candidates_elems(c: Canvas, w: int, h: int, q: int, start: int)
    requires
        0 <= start,
        0 <= w,
        0 <= h,
    ensures
        forall|k: int|
            0 <= k < first_candidates_from(c, w, h, q, start).len() ==> {
                let e = #[trigger] first_candidates_from(c, w, h, q, start)[k];
                &&& (e.0 as int) < c.width - w
                &&& (e.1 as int) < c.height - h
                &&& rect_blank(c, e.0 as int, e.1 as int, w, h, q)
            },
    decreases clip(SCAN_OFFSETS as int - start),
{
    if start >= SCAN_OFFSETS as int {
    } else if candidates(c, w, h, q, start, SCAN_STEP as int).len() > 0 {
        lemma_candidates_from_elems(c, w, h, q, start, SCAN_STEP as int, start);
        assert(first_candidates_from(c, w, h, q, start) == candidates(
            c,
            w,
            h,
            q,
            start,
            SCAN_STEP as int,
        ));
        assert forall|k: int| 0 <= k < first_candidates_from(c, w, h, q, start).len() implies {
            let e = #[trigger] first_candidates_from(c, w, h, q, start)[k];
            &&& (e.0 as int) < c.width - w
            &&& (e.1 as int) < c.height - h
            &&& rect_blank(c, e.0 as int, e.1 as int, w, h, q)
        } by {
            let e = candidates(c, w, h, q, start, SCAN_STEP as int)[k];
            assert(is_candidate(c, w, h, q, start, SCAN_STEP as int, e.0 as int, e.1 as int));
        }
    } else {
        lemma_first_candidates_elems(c, w, h, q, start + 1);
        assert(first_candidates_from(c, w, h, q, start) == first_candidates_from(
            c,
            w,
            h,
            q,
            start + 1,
        ));
        assert forall|k: int| 0 <= k < first_candidates_from(c, w, h, q, start).len() implies {
            let e = #[trigger] first_candidates_from(c, w, h, q, start)[k];
            &&& (e.0 as int) < c.width - w
            &&& (e.1 as int) < c.height - h
            &&& rect_blank(c, e.0 as int, e.1 as int, w, h, q)
        } by {
            assert(first_candidates_from(c, w, h, q, start)[k] == first_candidates_from(
                c,
                w,
                h,
                q,
                start + 1,
            )[k]);
        }
    }
}

proof fn lemma_multiple_ge_step(d: int, step: int)
    requires
        step >= 1,
        d >= 1,
        d % step == 0,
    ensures
        d >= step,
{
    vstd::arithmetic::div_mod::lemma_fundamental_div_mod(d, step);
    let k = d / step;
    assert(k >= 1 && step * k >= step) by (nonlinear_arith)
        requires
            step >= 1,
            d >= 1,
            d == step * k,
    ;
}

/// Every anchor on a column's lattice whose rectangle is blank is in the
/// column's list.
proof fn lemma_column_candidates_complete(
    c: Canvas,
    w: int,
    h: int,
    q: int,
    step: int,
    i: int,
    j0: int,
    j: int,
)
    requires
        step >= 1,
        0 <= j0 <= j,
        (j - j0) % step == 0,
        j < c.height - h,
        rect_blank(c, i, j, w, h, q),
    ensures
        column_candidates(c, w, h, q, step, i, j0).contains((i as u32, j as u32)),
    decreases clip(j - j0),
{
    let cur = column_candidates(c, w, h, q, step, i, j0);
    if j0 == j {
        assert(cur[0] == (i as u32, j as u32));
        assert(cur.contains((i as u32, j as u32)));
    } else {
        lemma_multiple_ge_step(j - j0, step);
        vstd::arithmetic::div_mod::lemma_mod_sub_multiples_vanish(j - j0, step);
        assert(-step + (j - j0) == j - (j0 + step));
        lemma_column_candidates_complete(c, w, h, q, step, i, j0 + step, j);
        let tail = column_candidates(c, w, h, q, step, i, j0 + step);
        let k = choose|k: int| 0 <= k < tail.len() && tail[k] == (i as u32, j as u32);
        if rect_blank(c, i, j0, w, h, q) {
            assert(cur == seq![(i as u32, j0 as u32)] + tail);
            assert(cur[k + 1] == tail[k]);
            assert(cur.contains((i as u32, j as u32)));
        } else {
            assert(cur == tail);
        }
    }
}

proof fn lemma_candidates_from_complete(
    c: Canvas,
    w: int,
    h: int,
    q: int,
    start: int,
    step: int,
    i0: int,
    i: int,
    j: int,
)
    requires
        step >= 1,
        0 <= start <= i0 <= i,
        (i - i0) % step == 0,
        is_candidate(c, w, h, q, start, step, i, j),
    ensures
        candidates_from(c, w, h, q, start, step, i0).contains((i as u32, j as u32)),
    decreases clip(i - i0),
{
    let cur = candidates_from(c, w, h, q, start, step, i0);
    let col = column_candidates(c, w, h, q, step, i0, start);
    let rest = candidates_from(c, w, h, q, start, step, i0 + step);
    assert(cur == col + rest);
    if i0 == i {
        lemma_column_candidates_complete(c, w, h, q, step, i, start, j);
        let k = choose|k: int| 0 <= k < col.len() && col[k] == (i as u32, j as u32);
        assert(cur[k] == col[k]);
        assert(cur.contains((i as u32, j as u32)));
    } else {
        lemma_multiple_ge_step(i - i0, step);
        vstd::arithmetic::div_mod::lemma_mod_sub_multiples_vanish(i - i0, step);
        assert(-step + (i - i0) == i - (i0 + step));
        lemma_candidates_from_complete(c, w, h, q, start, step, i0 + step, i, j);
        let k = choose|k: int| 0 <= k < rest.len() && rest[k] == (i as u32, j as u32);
        assert(cur[col.len() + k] == rest[k]);
        assert(cur.contains((i as u32, j as u32)));
    }
}

/// Every anchor on the scan's lattice whose rectangle fits and is blank is
/// in the scan's list: the scan misses nothing it was asked to test.
pub proof fn lemma_candidates_complete(
    c: Canvas,
    w: int,
    h: int,
    q: int,
    start: int,
    step: int,
    i: int,
    j: int,
)
    requires
        step >= 1,
        0 <= start,
        is_candidate(c, w, h, q, start, step, i, j),
    ensures
        candidates(c, w, h, q, start, step).contains((i as u32, j as u32)),
{
    vstd::arithmetic::div_mod::lemma_mod_multiples_basic(0, step);
    lemma_candidates_from_complete(c, w, h, q, start, step, start, i, j);
}

/// The full search comes back empty exactly when every offset's scan comes
/// back empty.
pub proof fn lemma_first_candidates_empty(c: Canvas, w: int, h: int, q: int, start: int)
    ensures
        first_candidates_from(c, w, h, q, start).len() == 0 <==> forall|s: int|
            start <= s < SCAN_OFFSETS as int ==> #[trigger] candidates(
                c,
                w,
                h,
                q,
                s,
                SCAN_STEP as int,
            ).len() == 0,
    decreases clip(SCAN_OFFSETS as int - start),
{
    if start >= SCAN_OFFSETS as int {
    } else if candidates(c, w, h, q, start, SCAN_STEP as int).len() > 0 {
    } else {
        lemma_first_candidates_empty(c, w, h, q, start + 1);
        if first_candidates_from(c, w, h, q, start).len() == 0 {
            assert forall|s: int|
                start <= s < SCAN_OFFSETS as int implies #[trigger] candidates(
                c,
                w,
                h,
                q,
                s,
                SCAN_STEP as int,
            ).len() == 0 by {
                if s > start {
                    assert(first_candidates_from(c, w, h, q, start + 1).len() == 0);
                }
            }
        }
    }
}

impl Canvas {
    /// Test one anchor: is the w × h rectangle at (i, j) blank under stride
    /// `quality`?
    pub fn rect_is_blank(&self, i: u32, j: u32, w: u32, h: u32, quality: u32) -> (r: bool)
        requires
            self.wf(),
            1 <= quality <= 0x7fff_ffff,
            i + w <= self.width,
            j + h <= self.height,
        ensures
            r == rect_blank(*self, i as int, j as int, w as int, h as int, quality as int),
    {
        let iw: u32 = i + w;
        let jh: u32 = j + h;
        let mut x: u32 = i;
        proof {
            vstd::arithmetic::div_mod::lemma_mod_multiples_basic(0, quality as int);
        }
        while x < iw
            invariant
                self.wf(),
                1 <= quality <= 0x7fff_ffff,
                i + w <= self.width,
                j + h <= self.height,
                iw == i + w,
                jh == j + h,
                i <= x,
                (x - i) % (quality as int) == 0,
                forall|xx: int, yy: int|
                    i <= xx < x && xx < i + w && j <= yy < j + h && (xx - i) % (quality as int)
                        == 0 && (yy - j) % (quality as int) == 0 ==> !self.occupied_at(xx, yy),
            decreases clip(i + w - x),
        {
            let mut y: u32 = j;
            proof {
                vstd::arithmetic::div_mod::lemma_mod_multiples_basic(0, quality as int);
            }
            while y < jh
                invariant
                    self.wf(),
                    1 <= quality <= 0x7fff_ffff,
                    i + w <= self.width,
                    j + h <= self.height,
                    jh == j + h,
                    i <= x,
                    x < i + w,
                    (x - i) % (quality as int) == 0,
                    j <= y,
                    (y - j) % (quality as int) == 0,
                    forall|yy: int|
                        j <= yy < y && (yy - j) % (quality as int) == 0 ==> !self.occupied_at(
                            x as int,
                            yy,
                        ),
                decreases clip(j + h - y),
            {
                if self.is_occupied(x, y) {
                    proof {
                        let ghost wx: int = x as int;
                        let ghost wy: int = y as int;
                        assert(self.occupied_at(wx, wy));
                        assert(i <= wx < i + w);
                        assert(j <= wy < j + h);
                        assert((wx - i) % (quality as int) == 0);
                        assert((wy - j) % (quality as int) == 0);
                        assert(!rect_blank(
                            *self,
                            i as int,
                            j as int,
                            w as int,
                            h as int,
                            quality as int,
                        ));
                    }
                    return false;
                }
                proof {
                    let ghost y0: int = y as int;
                    assert forall|yy: int|
                        j <= yy < y0 + quality && (yy - j) % (quality as int)
                            == 0 implies !self.occupied_at(x as int, yy) by {
                        if yy >= y0 {
                            lemma_same_residue_unique(j as int, yy, y0, quality as int);
                        }
                    }
                    lemma_step_keeps_residue(j as int, y0, quality as int);
                }
                y = y + quality;
            }
            proof {
                let ghost x0: int = x as int;
                assert forall|xx: int, yy: int|
                    i <= xx < x0 + quality && xx < i + w && j <= yy < j + h && (xx - i) % (
                    quality as int) == 0 && (yy - j) % (quality as int)
                        == 0 implies !self.occupied_at(xx, yy) by {
                    if xx >= x0 {
                        lemma_same_residue_unique(i as int, xx, x0, quality as int);
                    }
                }
                lemma_step_keeps_residue(i as int, x0, quality as int);
            }
            x = x + quality;
        }
        true
    }

    /// One scan pass: every anchor on the lattice that starts at `start` and
    /// advances by `step`, whose rectangle is blank under stride `quality`,
    /// in scan order.
    pub fn find_blank_with_skip(&self, w: u32, h: u32, quality: u32, start: u32, step: usize) -> (r:
        Vec<(u32, u32)>)
        requires
            self.wf(),
            1 <= quality <= 0x7fff_ffff,
            1 <= step <= 0x7fff_ffff,
        ensures
            r@ == candidates(*self, w as int, h as int, quality as int, start as int, step as int),
    {
        let ghost cw: int = w as int;
        let ghost ch: int = h as int;
        let ghost cq: int = quality as int;
        let ghost cs: int = start as int;
        let ghost cp: int = step as int;
        let mut points: Vec<(u32, u32)> = Vec::new();
        if w > self.width {
            assert(points@ =~= candidates(*self, cw, ch, cq, cs, cp));
            return points;
        }
        let iend: u32 = self.width - w;
        let mut i: usize = start as usize;
        assert(points@ + candidates_from(*self, cw, ch, cq, cs, cp, i as int) =~= candidates(
            *self,
            cw,
            ch,
            cq,
            cs,
            cp,
        ));
        while i < iend as usize
            invariant
                self.wf(),
                1 <= quality <= 0x7fff_ffff,
                1 <= step <= 0x7fff_ffff,
                w <= self.width,
                iend == self.width - w,
                cw == w as int,
                ch == h as int,
                cq == quality as int,
                cs == start as int,
                cp == step as int,
                candidates(*self, cw, ch, cq, cs, cp) == points@ + candidates_from(
                    *self,
                    cw,
                    ch,
                    cq,
                    cs,
                    cp,
                    i as int,
                ),
            decreases clip(iend as int - i as int),
        {
            let ghost ci: int = i as int;
            let ghost rest = candidates_from(*self, cw, ch, cq, cs, cp, ci + cp);
            assert(candidates_from(*self, cw, ch, cq, cs, cp, ci) == column_candidates(
                *self,
                cw,
                ch,
                cq,
                cp,
                ci,
                cs,
            ) + rest);
            if h <= self.height {
                let jend: u32 = self.height - h;
                let mut j: usize = start as usize;
                proof {
                    let ghost pts = points@;
                    assert(pts + (column_candidates(*self, cw, ch, cq, cp, ci, cs) + rest) =~= (pts
                        + column_candidates(*self, cw, ch, cq, cp, ci, cs)) + rest);
                }
                while j < jend as usize
                    invariant
                        self.wf(),
                        1 <= quality <= 0x7fff_ffff,
                        1 <= step <= 0x7fff_ffff,
                        w <= self.width,
                        h <= self.height,
                        iend == self.width - w,
                        jend == self.height - h,
                        i < iend as usize,
                        ci == i as int,
                        cw == w as int,
                        ch == h as int,
                        cq == quality as int,
                        cs == start as int,
                        cp == step as int,
                        rest == candidates_from(*self, cw, ch, cq, cs, cp, ci + cp),
                        candidates(*self, cw, ch, cq, cs, cp) == (points@ + column_candidates(
                            *self,
                            cw,
                            ch,
                            cq,
                            cp,
                            ci,
                            j as int,
                        )) + rest,
                    decreases clip(jend as int - j as int),
                {
                    let ghost cj: int = j as int;
                    let ghost colnext = column_candidates(*self, cw, ch, cq, cp, ci, cj + cp);
                    if self.rect_is_blank(i as u32, j as u32, w, h, quality) {
                        proof {
                            let ghost pts = points@;
                            let ghost e = (i as u32, j as u32);
                            assert(column_candidates(*self, cw, ch, cq, cp, ci, cj) == seq![e]
                                + colnext);
                            assert((pts + (seq![e] + colnext)) + rest =~= ((pts + seq![e])
                                + colnext) + rest);
                            assert(pts + seq![e] =~= pts.push(e));
                        }
                        points.push((i as u32, j as u32));
                    } else {
                        proof {
                            assert(column_candidates(*self, cw, ch, cq, cp, ci, cj) == colnext);
                        }
                    }
                    j = j + step;
                }
                proof {
                    assert(column_candidates(*self, cw, ch, cq, cp, ci, j as int)
                        =~= Seq::<(u32, u32)>::empty());
                    assert((points@ + Seq::<(u32, u32)>::empty()) + rest =~= points@ + rest);
                }
            } else {
                proof {
                    assert(column_candidates(*self, cw, ch, cq, cp, ci, cs)
                        =~= Seq::<(u32, u32)>::empty());
                    assert((points@ + Seq::<(u32, u32)>::empty()) + rest =~= points@ + rest);
                }
            }
            i = i + step;
            assert(candidates(*self, cw, ch, cq, cs, cp) == points@ + candidates_from(
                *self,
                cw,
                ch,
                cq,
                cs,
                cp,
                i as int,
            ));
        }
        proof {
            assert(candidates_from(*self, cw, ch, cq, cs, cp, i as int)
                =~= Seq::<(u32, u32)>::empty());
            assert(points@ + Seq::<(u32, u32)>::empty() =~= points@);
        }
        points
    }

    /// The candidate list the draw path uses: offsets 0 up to `SCAN_OFFSETS`
    /// are tried in order with lattice step `SCAN_STEP`, and the first offset
    /// whose scan accepts any anchor supplies the whole list.
    pub fn find_blank_candidates(&self, w: u32, h: u32, quality: u32) -> (r: Vec<(u32, u32)>)
        requires
            self.wf(),
            1 <= quality <= 0x7fff_ffff,
        ensures
            r@ == spec_first_candidates(*self, w as int, h as int, quality as int),
    {
        let mut start: u32 = 0;
        while start < SCAN_OFFSETS
            invariant
                self.wf(),
                1 <= quality <= 0x7fff_ffff,
                start <= SCAN_OFFSETS,
                spec_first_candidates(*self, w as int, h as int, quality as int)
                    == first_candidates_from(
                    *self,
                    w as int,
                    h as int,
                    quality as int,
                    start as int,
                ),
            decreases SCAN_OFFSETS - start,
        {
            let pts = self.find_blank_with_skip(w, h, quality, start, SCAN_STEP);
            if pts.len() > 0 {
                return pts;
            }
            start = start + 1;
        }
        Vec::new()
    }

    /// The full search: scan at each offset in turn, and pick one anchor at
    /// random from the first scan that accepts any; (-1, -1) when every
    /// offset's scan comes back empty. Which anchor of the winning scan comes
    /// back is left to the random draw; everything else is pinned.
    pub fn find_blank(&self, w: u32, h: u32, quality: u32) -> (p: (i32, i32))
        requires
            self.wf(),
            1 <= quality <= 0x7fff_ffff,
        ensures
            p == (-1i32, -1i32) <==> spec_first_candidates(
                *self,
                w as int,
                h as int,
                quality as int,
            ).len() == 0,
            p != (-1i32, -1i32) ==> {
                &&& 0 <= p.0
                &&& 0 <= p.1
                &&& (p.0 as int) + (w as int) < self.width as int
                &&& (p.1 as int) + (h as int) < self.height as int
                &&& spec_first_candidates(*self, w as int, h as int, quality as int).contains(
                    (p.0 as u32, p.1 as u32),
                )
                &&& rect_blank(*self, p.0 as int, p.1 as int, w as int, h as int, quality as int)
            },
    {
        let pts = self.find_blank_candidates(w, h, quality);
        if pts.len() == 0 {
            return (-1, -1);
        }
        let r = random_below(pts.len());
        let p = pts[r];
        proof {
            lemma_first_candidates_elems(*self, w as int, h as int, quality as int, 0);
            assert(pts@[r as int] == p);
            assert(pts@.contains(p));
        }
        (p.0 as i32, p.1 as i32)
    }

    /// The search with an injected choice in place of the thread-local random
    /// draw: the same candidate list, and the pick taken at the choice index
    /// modulo the list's length. Deterministic in the grid and the choice.
    pub fn find_blank_with_choice(&self, w: u32, h: u32, quality: u32, choice: usize) -> (p: (
        i32,
        i32,
    ))
        requires
            self.wf(),
            1 <= quality <= 0x7fff_ffff,
        ensures
            p == chosen_blank(*self, w as int, h as int, quality as int, choice as int),
    {
        let pts = self.find_blank_candidates(w, h, quality);
        if pts.len() == 0 {
            return (-1, -1);
        }
        let r: usize = choice % pts.len();
        let p = pts[r];
        proof {
            lemma_first_candidates_elems(*self, w as int, h as int, quality as int, 0);
            assert(pts@[r as int] == p);
        }
        (p.0 as i32, p.1 as i32)
    }
}

} // verus!
