//! Anchor (prior) generation: a fixed, deterministic multi-scale grid of
//! reference boxes. Normalized coordinates are kept exactly, as integer
//! numerators: a prior's center is `cx / (2 * input_w)`, `cy / (2 * input_h)`
//! and its size is `w / (2 * input_w)`, `h / (2 * input_h)` of the image.
use vstd::prelude::*;

verus! {

/// A reference anchor box. The fields are exact numerators of normalized
/// coordinates: `cx` and `w` over the denominator `2 * input_w`, `cy` and
/// `h` over `2 * input_h`.
#[derive(Clone, Copy, Debug, PartialEq, Eq, Structural)]
pub struct Prior {
    pub cx: i64,
    pub cy: i64,
    pub w: i64,
    pub h: i64,
}

/// The bounds on a prior that make the decoding arithmetic exact: a center
/// inside the image and a positive size of at most twice the image.
pub open spec fn prior_wf(p: Prior, input_w: int, input_h: int) -> bool {
    &&& 0 <= p.cx <= 2 * input_w
    &&& 0 <= p.cy <= 2 * input_h
    &&& 0 < p.w <= 2 * input_w
    &&& 0 < p.h <= 2 * input_h
}

/// The priors of one grid cell centered at `(cx, cy)`: one per anchor
/// size, in the given order, with numerator `2 * size` for width and
/// height.
pub open spec fn spec_size_priors(cx: i64, cy: i64, sizes: Seq<u32>) -> Seq<Prior>
    decreases sizes.len(),
{
    if sizes.len() == 0 {
        Seq::empty()
    } else {
        spec_size_priors(cx, cy, sizes.drop_last()).push(
            Prior {
                cx,
                cy,
                w: (2 * sizes.last()) as i64,
                h: (2 * sizes.last()) as i64,
            },
        )
    }
}

/// One grid row `i`: cells `j` in `[0, cols)` left to right, each centered
/// at numerators `(2j + 1) * step` and `(2i + 1) * step`.
pub open spec fn spec_row_priors(i: int, cols: int, step: u32, sizes: Seq<u32>) -> Seq<Prior>
    decreases cols,
{
    if cols <= 0 {
        Seq::empty()
    } else {
        spec_row_priors(i, cols - 1, step, sizes) + spec_size_priors(
            ((2 * (cols - 1) + 1) * step) as i64,
            ((2 * i + 1) * step) as i64,
            sizes,
        )
    }
}

/// One scale: rows `i` in `[0, rows)` top to bottom, row-major. This
/// ordering matches the flattening order of the model's output tensors.
pub open spec fn spec_grid_priors(rows: int, cols: int, step: u32, sizes: Seq<u32>) -> Seq<Prior>
    decreases rows,
{
    if rows <= 0 {
        Seq::empty()
    } else {
        spec_grid_priors(rows - 1, cols, step, sizes) + spec_row_priors(rows - 1, cols, step, sizes)
    }
}

/// All scales in order: scale `k` is a `maps[k].0` columns by `maps[k].1`
/// rows grid with step `steps[k]` and anchor sizes `sizes[k]`.
pub open spec fn spec_priors(maps: Seq<(u32, u32)>, sizes: Seq<Seq<u32>>, steps: Seq<u32>) -> Seq<
    Prior,
>
    decreases maps.len(),
{
    if maps.len() == 0 {
        Seq::empty()
    } else {
        spec_priors(maps.drop_last(), sizes.drop_last(), steps.drop_last()) + spec_grid_priors(
            maps.last().1 as int,
            maps.last().0 as int,
            steps.last(),
            sizes.last(),
        )
    }
}

/// The expected number of priors: the sum over scales of
/// `cols * rows * (number of anchor sizes)`.
pub open spec fn spec_prior_count(maps: Seq<(u32, u32)>, sizes: Seq<Seq<u32>>) -> int
    decreases maps.len(),
{
    if maps.len() == 0 {
        0
    } else {
        spec_prior_count(maps.drop_last(), sizes.drop_last()) + maps.last().0 * maps.last().1
            * sizes.last().len()
    }
}

proof fn lemma_size_priors_len(cx: i64, cy: i64, sizes: Seq<u32>)
    ensures
        spec_size_priors(cx, cy, sizes).len() == sizes.len(),
    decreases sizes.len(),
{
    if sizes.len() > 0 {
        lemma_size_priors_len(cx, cy, sizes.drop_last());
    }
}

proof fn lemma_row_priors_len(i: int, cols: int, step: u32, sizes: Seq<u32>)
    requires
        cols >= 0,
    ensures
        spec_row_priors(i, cols, step, sizes).len() == cols * sizes.len(),
    decreases cols,
{
    if cols > 0 {
        lemma_row_priors_len(i, cols - 1, step, sizes);
        lemma_size_priors_len(((2 * (cols - 1) + 1) * step) as i64, ((2 * i + 1) * step) as i64, sizes);
        let l = sizes.len() as int;
        assert(spec_row_priors(i, cols, step, sizes) == spec_row_priors(i, cols - 1, step, sizes)
            + spec_size_priors(((2 * (cols - 1) + 1) * step) as i64, ((2 * i + 1) * step) as i64, sizes));
        assert(spec_row_priors(i, cols, step, sizes).len() == (cols - 1) * l + l);
        assert((cols - 1) * l + l == cols * l) by (nonlinear_arith);
        assert(spec_row_priors(i, cols, step, sizes).len() == cols * sizes.len());
    } else {
        assert(cols == 0);
        assert(spec_row_priors(i, cols, step, sizes).len() == 0);
        assert(cols * sizes.len() == 0) by (nonlinear_arith)
            requires
                cols == 0,
        ;
    }
}

proof fn lemma_grid_priors_len(rows: int, cols: int, step: u32, sizes: Seq<u32>)
    requires
        rows >= 0,
        cols >= 0,
    ensures
        spec_grid_priors(rows, cols, step, sizes).len() == rows * cols * sizes.len(),
    decreases rows,
{
    if rows > 0 {
        lemma_grid_priors_len(rows - 1, cols, step, sizes);
        lemma_row_priors_len(rows - 1, cols, step, sizes);
        let l = sizes.len() as int;
        assert(spec_grid_priors(rows, cols, step, sizes).len() == (rows - 1) * cols * l
            + cols * l);
        assert((rows - 1) * cols * l + cols * l == rows * cols * l) by (nonlinear_arith);
        assert(spec_grid_priors(rows, cols, step, sizes).len() == rows * cols * sizes.len());
    } else {
        assert(rows == 0);
        assert(spec_grid_priors(rows, cols, step, sizes).len() == 0);
        assert(rows * cols * sizes.len() == 0) by (nonlinear_arith)
            requires
                rows == 0,
        ;
    }
}

/// The prior count invariant: the generator produces exactly
/// `spec_prior_count` priors, the sum over scales of
/// `rows * cols * len(sizes)`.
pub proof fn lemma_priors_count(maps: Seq<(u32, u32)>, sizes: Seq<Seq<u32>>, steps: Seq<u32>)
    requires
        maps.len() == sizes.len(),
        maps.len() == steps.len(),
    ensures
        spec_priors(maps, sizes, steps).len() == spec_prior_count(maps, sizes),
    decreases maps.len(),
{
    if maps.len() > 0 {
        lemma_priors_count(maps.drop_last(), sizes.drop_last(), steps.drop_last());
        lemma_grid_priors_len(maps.last().1 as int, maps.last().0 as int, steps.last(), sizes.last());
    }
}

/// Every prior of one grid cell is well formed when its center is inside
/// the image and its sizes fit twice the image.
proof fn lemma_size_priors_wf(cx: i64, cy: i64, sizes: Seq<u32>, iw: int, ih: int)
    requires
        0 <= cx <= 2 * iw,
        0 <= cy <= 2 * ih,
        forall|l: int|
            0 <= l < sizes.len() ==> 0 < #[trigger] sizes[l] && 2 * sizes[l] <= 2 * iw && 2
                * sizes[l] <= 2 * ih,
    ensures
        forall|t: int|
            0 <= t < spec_size_priors(cx, cy, sizes).len() ==> prior_wf(
                #[trigger] spec_size_priors(cx, cy, sizes)[t],
                iw,
                ih,
            ),
    decreases sizes.len(),
{
    if sizes.len() > 0 {
        assert(forall|l: int|
            0 <= l < sizes.drop_last().len() ==> 0 < #[trigger] sizes.drop_last()[l] && 2
                * sizes.drop_last()[l] <= 2 * iw && 2 * sizes.drop_last()[l] <= 2 * ih);
        lemma_size_priors_wf(cx, cy, sizes.drop_last(), iw, ih);
        let pre = spec_size_priors(cx, cy, sizes.drop_last());
        let out = spec_size_priors(cx, cy, sizes);
        let sz = sizes.last();
        assert(0 < sizes[sizes.len() - 1] && 2 * sizes[sizes.len() - 1] <= 2 * iw && 2
            * sizes[sizes.len() - 1] <= 2 * ih);
        assert forall|t: int| 0 <= t < out.len() implies prior_wf(out[t], iw, ih) by {
            if t < pre.len() {
                assert(out[t] == pre[t]);
                assert(prior_wf(pre[t], iw, ih));
            } else {
                assert(out[t] == Prior { cx, cy, w: (2 * sz) as i64, h: (2 * sz) as i64 });
            }
        }
    }
}

/// Every prior of one row is well formed when the row fits the image.
proof fn lemma_row_priors_wf(i: int, cols: int, step: u32, sizes: Seq<u32>, iw: int, ih: int)
    requires
        0 <= i,
        0 <= cols,
        0 < step,
        0 < iw <= 0x10000,
        0 < ih <= 0x10000,
        cols > 0 ==> (2 * cols - 1) * step <= 2 * iw,
        (2 * i + 1) * step <= 2 * ih,
        forall|l: int|
            0 <= l < sizes.len() ==> 0 < #[trigger] sizes[l] && 2 * sizes[l] <= 2 * iw && 2
                * sizes[l] <= 2 * ih,
    ensures
        forall|t: int|
            0 <= t < spec_row_priors(i, cols, step, sizes).len() ==> prior_wf(
                #[trigger] spec_row_priors(i, cols, step, sizes)[t],
                iw,
                ih,
            ),
    decreases cols,
{
    if cols > 0 {
        assert((cols > 1 ==> (2 * (cols - 1) - 1) * step <= 2 * iw) && 0 <= (2 * (cols - 1) + 1)
            * step <= 2 * iw && 0 <= (2 * i + 1) * step) by (nonlinear_arith)
            requires
                0 < step,
                0 <= i,
                0 < cols,
                (2 * cols - 1) * step <= 2 * iw,
                (2 * i + 1) * step <= 2 * ih,
        ;
        lemma_row_priors_wf(i, cols - 1, step, sizes, iw, ih);
        let cxi = (2 * (cols - 1) + 1) * step;
        let cyi = (2 * i + 1) * step;
        assert((cxi as i64) == cxi && (cyi as i64) == cyi);
        lemma_size_priors_wf(cxi as i64, cyi as i64, sizes, iw, ih);
        let pre = spec_row_priors(i, cols - 1, step, sizes);
        let cell = spec_size_priors(cxi as i64, cyi as i64, sizes);
        let out = spec_row_priors(i, cols, step, sizes);
        assert(out == pre + cell);
        assert forall|t: int| 0 <= t < out.len() implies prior_wf(out[t], iw, ih) by {
            if t < pre.len() {
                assert(out[t] == pre[t]);
            } else {
                assert(out[t] == cell[t - pre.len()]);
            }
        }
    }
}

/// Every prior of one scale is well formed when the grid fits the image.
proof fn lemma_grid_priors_wf(rows: int, cols: int, step: u32, sizes: Seq<u32>, iw: int, ih: int)
    requires
        0 <= rows,
        0 <= cols,
        0 < step,
        0 < iw <= 0x10000,
        0 < ih <= 0x10000,
        cols > 0 ==> (2 * cols - 1) * step <= 2 * iw,
        rows > 0 ==> (2 * rows - 1) * step <= 2 * ih,
        forall|l: int|
            0 <= l < sizes.len() ==> 0 < #[trigger] sizes[l] && 2 * sizes[l] <= 2 * iw && 2
                * sizes[l] <= 2 * ih,
    ensures
        forall|t: int|
            0 <= t < spec_grid_priors(rows, cols, step, sizes).len() ==> prior_wf(
                #[trigger] spec_grid_priors(rows, cols, step, sizes)[t],
                iw,
                ih,
            ),
    decreases rows,
{
    if rows > 0 {
        assert((rows > 1 ==> (2 * (rows - 1) - 1) * step <= 2 * ih) && (2 * (rows - 1) + 1) * step
            <= 2 * ih) by (nonlinear_arith)
            requires
                0 < step,
                0 < rows,
                (2 * rows - 1) * step <= 2 * ih,
        ;
        lemma_grid_priors_wf(rows - 1, cols, step, sizes, iw, ih);
        lemma_row_priors_wf(rows - 1, cols, step, sizes, iw, ih);
        let pre = spec_grid_priors(rows - 1, cols, step, sizes);
        let row = spec_row_priors(rows - 1, cols, step, sizes);
        let out = spec_grid_priors(rows, cols, step, sizes);
        assert(out == pre + row);
        assert forall|t: int| 0 <= t < out.len() implies prior_wf(out[t], iw, ih) by {
            if t < pre.len() {
                assert(out[t] == pre[t]);
            } else {
                assert(out[t] == row[t - pre.len()]);
            }
        }
    }
}

/// Generates the anchor grid for the given multi-scale schedule:
/// `feature_maps[k]` is `(cols, rows)` of scale `k`, `min_sizes[k]` its
/// anchor sizes and `steps[k]` its cell size in input pixels. Fully
/// deterministic: the result is a function of the schedule alone.
pub fn generate_priors(
    feature_maps: &Vec<(u32, u32)>,
    min_sizes: &Vec<Vec<u32>>,
    steps: &Vec<u32>,
) -> (r: Vec<Prior>)
    requires
        feature_maps@.len() == min_sizes@.len(),
        feature_maps@.len() == steps@.len(),
        forall|k: int|
            0 <= k < feature_maps@.len() ==> (#[trigger] feature_maps@[k]).0 <= 8192
                && feature_maps@[k].1 <= 8192,
        forall|k: int| 0 <= k < steps@.len() ==> #[trigger] steps@[k] <= 8192,
    ensures
        r@ == spec_priors(feature_maps@, min_sizes.deep_view(), steps@),
        r@.len() == spec_prior_count(feature_maps@, min_sizes.deep_view()),
{
    let ghost gmaps = feature_maps@;
    let ghost gsizes = min_sizes.deep_view();
    let ghost gsteps = steps@;
    let mut r: Vec<Prior> = Vec::new();
    let n = feature_maps.len();
    let mut k: usize = 0;
    proof {
        assert(gmaps.subrange(0, 0) =~= Seq::<(u32, u32)>::empty());
        assert(gsizes.subrange(0, 0) =~= Seq::<Seq<u32>>::empty());
        assert(gsteps.subrange(0, 0) =~= Seq::<u32>::empty());
    }
    while k < n
        invariant
            k <= n,
            n == gmaps.len(),
            gmaps.len() == gsizes.len(),
            gmaps.len() == gsteps.len(),
            gmaps == feature_maps@,
            gsizes == min_sizes.deep_view(),
            gsteps == steps@,
            forall|t: int|
                0 <= t < gmaps.len() ==> (#[trigger] gmaps[t]).0 <= 8192 && gmaps[t].1 <= 8192,
            forall|t: int| 0 <= t < gsteps.len() ==> #[trigger] gsteps[t] <= 8192,
            r@ == spec_priors(
                gmaps.subrange(0, k as int),
                gsizes.subrange(0, k as int),
                gsteps.subrange(0, k as int),
            ),
        decreases n - k,
    {
        let (cols, rows) = feature_maps[k];
        let step = steps[k];
        let sizes: &Vec<u32> = &min_sizes[k];
        proof {
            assert(gsizes[k as int] == min_sizes@[k as int]@);
        }
        let ghost gs: Seq<u32> = gsizes[k as int];
        let mut i: u32 = 0;
        while i < rows
            invariant
                i <= rows,
                k < n,
                n == gmaps.len(),
                rows == gmaps[k as int].1,
                cols == gmaps[k as int].0,
                step == gsteps[k as int],
                cols <= 8192,
                rows <= 8192,
                step <= 8192,
                gs == gsizes[k as int],
                sizes@ == gs,
                r@ == spec_priors(
                    gmaps.subrange(0, k as int),
                    gsizes.subrange(0, k as int),
                    gsteps.subrange(0, k as int),
                ) + spec_grid_priors(i as int, cols as int, step, gs),
            decreases rows - i,
        {
            proof {
                assert(0 <= (2 * (i as int) + 1) * (step as int) <= 0x1000_0000)
                    by (nonlinear_arith)
                    requires
                        0 <= i <= 8192,
                        0 <= step <= 8192,
                ;
            }
            let cy: i64 = (2 * (i as i64) + 1) * (step as i64);
            let mut j: u32 = 0;
            while j < cols
                invariant
                    j <= cols,
                    k < n,
                    n == gmaps.len(),
                    rows == gmaps[k as int].1,
                    cols == gmaps[k as int].0,
                    step == gsteps[k as int],
                    cols <= 8192,
                    rows <= 8192,
                    step <= 8192,
                    i < rows,
                    cy == (2 * (i as int) + 1) * (step as int),
                    gs == gsizes[k as int],
                    sizes@ == gs,
                    r@ == spec_priors(
                        gmaps.subrange(0, k as int),
                        gsizes.subrange(0, k as int),
                        gsteps.subrange(0, k as int),
                    ) + spec_grid_priors(i as int, cols as int, step, gs) + spec_row_priors(
                        i as int,
                        j as int,
                        step,
                        gs,
                    ),
                decreases cols - j,
            {
                proof {
                    assert(0 <= (2 * (j as int) + 1) * (step as int) <= 0x1000_0000)
                        by (nonlinear_arith)
                        requires
                            0 <= j <= 8192,
                            0 <= step <= 8192,
                    ;
                }
                let cx: i64 = (2 * (j as i64) + 1) * (step as i64);
                let m = sizes.len();
                let mut t: usize = 0;
                proof {
                    assert(gs.subrange(0, 0) =~= Seq::<u32>::empty());
                }
                while t < m
                    invariant
                        t <= m,
                        m == gs.len(),
                        sizes@ == gs,
                        k < n,
                        n == gmaps.len(),
                        rows == gmaps[k as int].1,
                        cols == gmaps[k as int].0,
                        step == gsteps[k as int],
                        cols <= 8192,
                        rows <= 8192,
                        step <= 8192,
                        i < rows,
                        j < cols,
                        gs == gsizes[k as int],
                        cy == (2 * (i as int) + 1) * (step as int),
                        cx == (2 * (j as int) + 1) * (step as int),
                        r@ == spec_priors(
                            gmaps.subrange(0, k as int),
                            gsizes.subrange(0, k as int),
                            gsteps.subrange(0, k as int),
                        ) + spec_grid_priors(i as int, cols as int, step, gs) + spec_row_priors(
                            i as int,
                            j as int,
                            step,
                            gs,
                        ) + spec_size_priors(cx, cy, gs.subrange(0, t as int)),
                    decreases m - t,
                {
                    let s = sizes[t];
                    r.push(
                        Prior {
                            cx,
                            cy,
                            w: 2 * (s as i64),
                            h: 2 * (s as i64),
                        },
                    );
                    proof {
                        let pre = gs.subrange(0, t as int);
                        let cur = gs.subrange(0, t + 1 as int);
                        assert(cur.drop_last() =~= pre);
                        assert(cur.last() == gs[t as int]);
                        assert(r@ =~= spec_priors(
                            gmaps.subrange(0, k as int),
                            gsizes.subrange(0, k as int),
                            gsteps.subrange(0, k as int),
                        ) + spec_grid_priors(i as int, cols as int, step, gs) + spec_row_priors(
                            i as int,
                            j as int,
                            step,
                            gs,
                        ) + spec_size_priors(cx, cy, cur));
                    }
                    t = t + 1;
                }
                proof {
                    assert(gs.subrange(0, gs.len() as int) =~= gs);
                    assert(spec_row_priors(i as int, j + 1 as int, step, gs) == spec_row_priors(
                        i as int,
                        j as int,
                        step,
                        gs,
                    ) + spec_size_priors(cx, cy, gs));
                    assert(spec_priors(
                        gmaps.subrange(0, k as int),
                        gsizes.subrange(0, k as int),
                        gsteps.subrange(0, k as int),
                    ) + spec_grid_priors(i as int, cols as int, step, gs) + spec_row_priors(
                        i as int,
                        j as int,
                        step,
                        gs,
                    ) + spec_size_priors(cx, cy, gs) =~= spec_priors(
                        gmaps.subrange(0, k as int),
                        gsizes.subrange(0, k as int),
                        gsteps.subrange(0, k as int),
                    ) + spec_grid_priors(i as int, cols as int, step, gs) + spec_row_priors(
                        i as int,
                        j + 1 as int,
                        step,
                        gs,
                    ));
                }
                j = j + 1;
            }
            proof {
                assert(spec_grid_priors(i + 1 as int, cols as int, step, gs) == spec_grid_priors(
                    i as int,
                    cols as int,
                    step,
                    gs,
                ) + spec_row_priors(i as int, cols as int, step, gs));
                assert(spec_priors(
                    gmaps.subrange(0, k as int),
                    gsizes.subrange(0, k as int),
                    gsteps.subrange(0, k as int),
                ) + spec_grid_priors(i as int, cols as int, step, gs) + spec_row_priors(
                    i as int,
                    cols as int,
                    step,
                    gs,
                ) =~= spec_priors(
                    gmaps.subrange(0, k as int),
                    gsizes.subrange(0, k as int),
                    gsteps.subrange(0, k as int),
                ) + spec_grid_priors(i + 1 as int, cols as int, step, gs));
            }
            i = i + 1;
        }
        proof {
            let mpre = gmaps.subrange(0, k as int);
            let mcur = gmaps.subrange(0, k + 1 as int);
            let spre = gsizes.subrange(0, k as int);
            let scur = gsizes.subrange(0, k + 1 as int);
            let tpre = gsteps.subrange(0, k as int);
            let tcur = gsteps.subrange(0, k + 1 as int);
            assert(mcur.drop_last() =~= mpre);
            assert(scur.drop_last() =~= spre);
            assert(tcur.drop_last() =~= tpre);
            assert(mcur.last() == gmaps[k as int]);
            assert(scur.last() == gsizes[k as int]);
            assert(tcur.last() == gsteps[k as int]);
        }
        k = k + 1;
    }
    proof {
        assert(gmaps.subrange(0, n as int) =~= gmaps);
        assert(gsizes.subrange(0, n as int) =~= gsizes);
        assert(gsteps.subrange(0, n as int) =~= gsteps);
        lemma_priors_count(gmaps, gsizes, gsteps);
    }
    r
}

/// The feature-map schedule of the 640x480 detector: `(cols, rows)` of
/// each scale.
pub open spec fn spec_maps_640() -> Seq<(u32, u32)> {
    seq![(80u32, 60u32), (40u32, 30u32), (20u32, 15u32), (10u32, 8u32)]
}

/// The anchor sizes of each scale of the 640x480 detector.
pub open spec fn spec_sizes_640() -> Seq<Seq<u32>> {
    seq![
        seq![10u32, 16u32, 24u32],
        seq![32u32, 48u32],
        seq![64u32, 96u32],
        seq![128u32, 192u32, 256u32],
    ]
}

/// The cell steps of each scale of the 640x480 detector, in input pixels.
pub open spec fn spec_steps_640() -> Seq<u32> {
    seq![8u32, 16u32, 32u32, 64u32]
}

/// The full prior table of the 640x480 detector.
pub open spec fn spec_priors_640() -> Seq<Prior> {
    spec_priors(spec_maps_640(), spec_sizes_640(), spec_steps_640())
}

/// Generates the prior table for the fixed 640x480 input resolution: four
/// scales, 17640 priors in all, each within the bounds that make decoding
/// exact. Deterministic: every call returns the same table.
pub fn generate_priors_640() -> (r: Vec<Prior>)
    ensures
        r@ == spec_priors_640(),
        r@.len() == 17640,
        forall|t: int| 0 <= t < r@.len() ==> prior_wf(#[trigger] r@[t], 640, 480),
{
    let mut feature_maps: Vec<(u32, u32)> = Vec::new();
    feature_maps.push((80, 60));
    feature_maps.push((40, 30));
    feature_maps.push((20, 15));
    feature_maps.push((10, 8));
    let mut s0: Vec<u32> = Vec::new();
    s0.push(10);
    s0.push(16);
    s0.push(24);
    let mut s1: Vec<u32> = Vec::new();
    s1.push(32);
    s1.push(48);
    let mut s2: Vec<u32> = Vec::new();
    s2.push(64);
    s2.push(96);
    let mut s3: Vec<u32> = Vec::new();
    s3.push(128);
    s3.push(192);
    s3.push(256);
    proof {
        assert(s0@ =~= seq![10u32, 16u32, 24u32]);
        assert(s1@ =~= seq![32u32, 48u32]);
        assert(s2@ =~= seq![64u32, 96u32]);
        assert(s3@ =~= seq![128u32, 192u32, 256u32]);
    }
    let mut min_sizes: Vec<Vec<u32>> = Vec::new();
    min_sizes.push(s0);
    min_sizes.push(s1);
    min_sizes.push(s2);
    min_sizes.push(s3);
    let mut steps: Vec<u32> = Vec::new();
    steps.push(8);
    steps.push(16);
    steps.push(32);
    steps.push(64);
    proof {
        assert(feature_maps@ =~= spec_maps_640());
        assert(min_sizes.deep_view() =~~= spec_sizes_640());
        assert(steps@ =~= spec_steps_640());
    }
    let r = generate_priors(&feature_maps, &min_sizes, &steps);
    proof {
        lemma_priors_640_wf();
        lemma_priors_640_count();
    }
    r
}

/// The prior count invariant, instantiated: the 640x480 table holds
/// 80*60*3 + 40*30*2 + 20*15*2 + 10*8*3 = 17640 priors.
pub proof fn lemma_priors_640_count()
    ensures
        spec_priors_640().len() == 17640,
{
    lemma_priors_count(spec_maps_640(), spec_sizes_640(), spec_steps_640());
    let m = spec_maps_640();
    let z = spec_sizes_640();
    let m3 = m.drop_last();
    let z3 = z.drop_last();
    let m2 = m3.drop_last();
    let z2 = z3.drop_last();
    let m1 = m2.drop_last();
    let z1 = z2.drop_last();
    let m0 = m1.drop_last();
    let z0 = z1.drop_last();
    assert(m0.len() == 0);
    assert(spec_prior_count(m0, z0) == 0);
    assert(m1.last() == (80u32, 60u32) && z1.last() =~= seq![10u32, 16u32, 24u32]);
    assert(spec_prior_count(m1, z1) == 14400);
    assert(m2.last() == (40u32, 30u32) && z2.last() =~= seq![32u32, 48u32]);
    assert(spec_prior_count(m2, z2) == 14400 + 2400);
    assert(m3.last() == (20u32, 15u32) && z3.last() =~= seq![64u32, 96u32]);
    assert(spec_prior_count(m3, z3) == 14400 + 2400 + 600);
    assert(m.last() == (10u32, 8u32) && z.last() =~= seq![128u32, 192u32, 256u32]);
    assert(z.last().len() == 3);
    assert(spec_prior_count(m, z) == spec_prior_count(m3, z3) + 10 * 8 * 3);
    assert(spec_prior_count(m, z) == 14400 + 2400 + 600 + 240);
}

/// Prior generation is a function of the schedule alone: two tables built
/// from the same schedule are equal.
pub proof fn lemma_priors_deterministic(
    maps: Seq<(u32, u32)>,
    sizes: Seq<Seq<u32>>,
    steps: Seq<u32>,
    r1: Seq<Prior>,
    r2: Seq<Prior>,
)
    requires
        r1 == spec_priors(maps, sizes, steps),
        r2 == spec_priors(maps, sizes, steps),
    ensures
        r1 == r2,
{
}

/// Every prior of the 640x480 table is well formed for decoding against a
/// 640 by 480 input.
pub proof fn lemma_priors_640_wf()
    ensures
        forall|t: int|
            0 <= t < spec_priors_640().len() ==> prior_wf(#[trigger] spec_priors_640()[t], 640, 480),
{
    let m = spec_maps_640();
    let z = spec_sizes_640();
    let st = spec_steps_640();
    let m3 = m.drop_last();
    let z3 = z.drop_last();
    let t3 = st.drop_last();
    let m2 = m3.drop_last();
    let z2 = z3.drop_last();
    let t2 = t3.drop_last();
    let m1 = m2.drop_last();
    let z1 = z2.drop_last();
    let t1 = t2.drop_last();
    let m0 = m1.drop_last();
    let z0 = z1.drop_last();
    let t0 = t1.drop_last();
    assert(m0.len() == 0);
    let g1 = spec_grid_priors(60, 80, 8u32, seq![10u32, 16u32, 24u32]);
    let g2 = spec_grid_priors(30, 40, 16u32, seq![32u32, 48u32]);
    let g3 = spec_grid_priors(15, 20, 32u32, seq![64u32, 96u32]);
    let g4 = spec_grid_priors(8, 10, 64u32, seq![128u32, 192u32, 256u32]);
    lemma_grid_priors_wf(60, 80, 8u32, seq![10u32, 16u32, 24u32], 640, 480);
    lemma_grid_priors_wf(30, 40, 16u32, seq![32u32, 48u32], 640, 480);
    lemma_grid_priors_wf(15, 20, 32u32, seq![64u32, 96u32], 640, 480);
    lemma_grid_priors_wf(8, 10, 64u32, seq![128u32, 192u32, 256u32], 640, 480);
    assert(m1.last() == (80u32, 60u32) && z1.last() =~= seq![10u32, 16u32, 24u32] && t1.last()
        == 8u32);
    assert(m2.last() == (40u32, 30u32) && z2.last() =~= seq![32u32, 48u32] && t2.last() == 16u32);
    assert(m3.last() == (20u32, 15u32) && z3.last() =~= seq![64u32, 96u32] && t3.last() == 32u32);
    assert(m.last() == (10u32, 8u32) && z.last() =~= seq![128u32, 192u32, 256u32] && st.last()
        == 64u32);
    let a1 = spec_priors(m1, z1, t1);
    let a2 = spec_priors(m2, z2, t2);
    let a3 = spec_priors(m3, z3, t3);
    let p = spec_priors_640();
    assert(a1 == spec_priors(m0, z0, t0) + g1);
    assert(a1 =~= g1);
    assert(a2 == a1 + g2);
    assert(a3 == a2 + g3);
    assert(p == a3 + g4);
    assert forall|t: int| 0 <= t < p.len() implies prior_wf(p[t], 640, 480) by {
        if t < a3.len() {
            assert(p[t] == a3[t]);
            if t < a2.len() {
                assert(a3[t] == a2[t]);
                if t < a1.len() {
                    assert(a2[t] == a1[t]);
                    assert(a1[t] == g1[t]);
                } else {
                    assert(a2[t] == g2[t - a1.len()]);
                }
            } else {
                assert(a3[t] == g3[t - a2.len()]);
            }
        } else {
            assert(p[t] == g4[t - a3.len()]);
        }
    }
}

} // verus!
