use crate::config::Config;
use crate::watermark::{tile_coords, Watermark};
use vstd::arithmetic::div_mod::{
    lemma_fundamental_div_mod, lemma_fundamental_div_mod_converse_div,
    lemma_fundamental_div_mod_converse_mod,
};
use vstd::arithmetic::mul::lemma_mul_inequality;
use vstd::prelude::*;

verus! {

/// Number of tile columns: one tile per full interval, plus one so the grid
/// always overshoots the right edge of the canvas.
pub open spec fn spec_tiles_x(canvas_w: u32, interval: u32) -> int {
    1 + canvas_w as int / interval as int
}

/// Number of tile rows, analogous to `spec_tiles_x`.
pub open spec fn spec_tiles_y(canvas_h: u32, interval: u32) -> int {
    1 + canvas_h as int / interval as int
}

/// Origin of the tile in column `tx`, row `ty`.
pub open spec fn spec_origin(offset: u32, interval: u32, tx: int, ty: int) -> (u32, u32) {
    (((offset + tx * interval) as u32), ((offset + ty * interval) as u32))
}

/// The tile origins in walk order: columns outermost, rows innermost, so the
/// origin at position `k` belongs to column `k / tiles_y` and row
/// `k % tiles_y`. This order decides which tile wins where placements overlap.
pub open spec fn grid_origins(canvas_w: u32, canvas_h: u32, offset: u32, interval: u32) -> Seq<
    (u32, u32),
> {
    let yc = spec_tiles_y(canvas_h, interval);
    Seq::new(
        (spec_tiles_x(canvas_w, interval) * yc) as nat,
        |k: int| spec_origin(offset, interval, k / yc, k % yc),
    )
}

/// The coordinates of `s` that lie on a `canvas_w` by `canvas_h` canvas,
/// keeping their order in `s`.
pub open spec fn clip(s: Seq<(u32, u32)>, canvas_w: u32, canvas_h: u32) -> Seq<(u32, u32)>
    decreases s.len(),
{
    if s.len() == 0 {
        Seq::empty()
    } else {
        let rest = clip(s.skip(1), canvas_w, canvas_h);
        if s[0].0 < canvas_w && s[0].1 < canvas_h {
            seq![s[0]] + rest
        } else {
            rest
        }
    }
}

/// Every placement in `origins`, in order, clipped to the canvas: the exact
/// sequence of pixels a watermarking run touches.
pub open spec fn walk_coords(
    mask: Seq<bool>,
    width: int,
    scale: int,
    origins: Seq<(u32, u32)>,
    canvas_w: u32,
    canvas_h: u32,
) -> Seq<(u32, u32)>
    decreases origins.len(),
{
    if origins.len() == 0 {
        Seq::empty()
    } else {
        clip(tile_coords(mask, width, origins[0], scale), canvas_w, canvas_h) + walk_coords(
            mask,
            width,
            scale,
            origins.skip(1),
            canvas_w,
            canvas_h,
        )
    }
}

proof fn lemma_clip_push(s: Seq<(u32, u32)>, p: (u32, u32), canvas_w: u32, canvas_h: u32)
    ensures
        clip(s.push(p), canvas_w, canvas_h) == clip(s, canvas_w, canvas_h) + (if p.0 < canvas_w
            && p.1 < canvas_h {
            seq![p]
        } else {
            Seq::<(u32, u32)>::empty()
        }),
    decreases s.len(),
{
    let tail = if p.0 < canvas_w && p.1 < canvas_h {
        seq![p]
    } else {
        Seq::<(u32, u32)>::empty()
    };
    if s.len() == 0 {
        assert(s.push(p)[0] == p);
        assert(s.push(p).skip(1) =~= Seq::<(u32, u32)>::empty());
        assert(clip(Seq::<(u32, u32)>::empty(), canvas_w, canvas_h) == Seq::<(u32, u32)>::empty());
        assert(clip(s.push(p), canvas_w, canvas_h) =~= clip(s, canvas_w, canvas_h) + tail);
    } else {
        assert(s.push(p).skip(1) =~= s.skip(1).push(p));
        lemma_clip_push(s.skip(1), p, canvas_w, canvas_h);
        assert(s.push(p)[0] == s[0]);
        if s[0].0 < canvas_w && s[0].1 < canvas_h {
            assert(clip(s.push(p), canvas_w, canvas_h) == seq![s[0]] + (clip(
                s.skip(1),
                canvas_w,
                canvas_h,
            ) + tail));
            assert(seq![s[0]] + (clip(s.skip(1), canvas_w, canvas_h) + tail) =~= (seq![s[0]] + clip(
                s.skip(1),
                canvas_w,
                canvas_h,
            )) + tail);
        }
    }
}

proof fn lemma_walk_push(
    mask: Seq<bool>,
    width: int,
    scale: int,
    origins: Seq<(u32, u32)>,
    o: (u32, u32),
    canvas_w: u32,
    canvas_h: u32,
)
    ensures
        walk_coords(mask, width, scale, origins.push(o), canvas_w, canvas_h) == walk_coords(
            mask,
            width,
            scale,
            origins,
            canvas_w,
            canvas_h,
        ) + clip(tile_coords(mask, width, o, scale), canvas_w, canvas_h),
    decreases origins.len(),
{
    let tail = clip(tile_coords(mask, width, o, scale), canvas_w, canvas_h);
    if origins.len() == 0 {
        assert(origins.push(o)[0] == o);
        assert(origins.push(o).skip(1) =~= Seq::<(u32, u32)>::empty());
        assert(walk_coords(mask, width, scale, Seq::<(u32, u32)>::empty(), canvas_w, canvas_h)
            == Seq::<(u32, u32)>::empty());
        assert(walk_coords(mask, width, scale, origins.push(o), canvas_w, canvas_h) =~= walk_coords(
            mask,
            width,
            scale,
            origins,
            canvas_w,
            canvas_h,
        ) + tail);
    } else {
        assert(origins.push(o).skip(1) =~= origins.skip(1).push(o));
        lemma_walk_push(mask, width, scale, origins.skip(1), o, canvas_w, canvas_h);
        assert(origins.push(o)[0] == origins[0]);
        let head = clip(tile_coords(mask, width, origins[0], scale), canvas_w, canvas_h);
        let mid = walk_coords(mask, width, scale, origins.skip(1), canvas_w, canvas_h);
        assert(walk_coords(mask, width, scale, origins.push(o), canvas_w, canvas_h) == head + (mid
            + tail));
        assert(head + (mid + tail) =~= (head + mid) + tail);
    }
}

/// The grid of tile origins covering a `canvas_w` by `canvas_h` canvas,
/// in walk order (columns outermost).
pub fn tile_origins(canvas_w: u32, canvas_h: u32, config: &Config) -> (r: Vec<(u32, u32)>)
    requires
        config.watermark_interval >= 1,
        canvas_w < u32::MAX,
        canvas_h < u32::MAX,
        config.offset + canvas_w <= u32::MAX,
        config.offset + canvas_h <= u32::MAX,
    ensures
        r@ == grid_origins(canvas_w, canvas_h, config.offset, config.watermark_interval),
{
    let offset = config.offset;
    let interval = config.watermark_interval;
    proof {
        assert(canvas_w as int / interval as int <= canvas_w as int && canvas_h as int
            / interval as int <= canvas_h as int) by (nonlinear_arith)
            requires
                interval >= 1,
                canvas_w >= 0,
                canvas_h >= 0,
        ;
    }
    let x_count: u32 = 1 + canvas_w / interval;
    let y_count: u32 = 1 + canvas_h / interval;
    let ghost xc = x_count as int;
    let ghost yc = y_count as int;
    let mut out: Vec<(u32, u32)> = Vec::new();
    let mut wx: u32 = 0;
    while wx < x_count
        invariant
            wx <= x_count,
            interval == config.watermark_interval,
            offset == config.offset,
            interval >= 1,
            offset + canvas_w <= u32::MAX,
            offset + canvas_h <= u32::MAX,
            xc == spec_tiles_x(canvas_w, interval),
            yc == spec_tiles_y(canvas_h, interval),
            x_count == xc,
            y_count == yc,
            out@.len() == wx * yc,
            forall|k: int|
                0 <= k < out@.len() ==> #[trigger] out@[k] == spec_origin(
                    offset,
                    interval,
                    k / yc,
                    k % yc,
                ),
        decreases x_count - wx,
    {
        let mut wy: u32 = 0;
        while wy < y_count
            invariant
                wx < x_count,
                wy <= y_count,
                interval == config.watermark_interval,
                offset == config.offset,
                interval >= 1,
                offset + canvas_w <= u32::MAX,
                offset + canvas_h <= u32::MAX,
                xc == spec_tiles_x(canvas_w, interval),
                yc == spec_tiles_y(canvas_h, interval),
                x_count == xc,
                y_count == yc,
                out@.len() == wx * yc + wy,
                forall|k: int|
                    0 <= k < out@.len() ==> #[trigger] out@[k] == spec_origin(
                        offset,
                        interval,
                        k / yc,
                        k % yc,
                    ),
            decreases y_count - wy,
        {
            proof {
                lemma_mul_inequality(wx as int, xc - 1, interval as int);
                lemma_mul_inequality(wy as int, yc - 1, interval as int);
                lemma_fundamental_div_mod(canvas_w as int, interval as int);
                lemma_fundamental_div_mod(canvas_h as int, interval as int);
                assert((xc - 1) * interval == interval * (canvas_w as int / interval as int))
                    by (nonlinear_arith)
                    requires
                        xc - 1 == canvas_w as int / interval as int,
                ;
                assert((yc - 1) * interval == interval * (canvas_h as int / interval as int))
                    by (nonlinear_arith)
                    requires
                        yc - 1 == canvas_h as int / interval as int,
                ;
            }
            let ox = offset + wx * interval;
            let oy = offset + wy * interval;
            proof {
                let k = out@.len() as int;
                lemma_fundamental_div_mod_converse_div(k, yc, wx as int, wy as int);
                lemma_fundamental_div_mod_converse_mod(k, yc, wx as int, wy as int);
                assert((ox, oy) == spec_origin(offset, interval, k / yc, k % yc));
            }
            out.push((ox, oy));
            wy = wy + 1;
        }
        proof {
            assert(wx as int * yc + yc == (wx + 1) as int * yc) by (nonlinear_arith);
        }
        wx = wx + 1;
    }
    proof {
        assert(out@ =~= grid_origins(canvas_w, canvas_h, offset, interval));
    }
    out
}

/// Every canvas pixel the watermarking run touches, in write order: for each
/// tile origin of the grid, the stencil placement's coordinates, clipped to
/// the canvas.
pub fn touched_positions(stencil: &Watermark, canvas_w: u32, canvas_h: u32, config: &Config) -> (r:
    Vec<(u32, u32)>)
    requires
        stencil.wf(),
        config.watermark_interval >= 1,
        config.scale >= 1,
        config.scale * config.scale <= u32::MAX,
        canvas_w < u32::MAX,
        canvas_h < u32::MAX,
        config.offset + canvas_w + stencil.spec_width() * config.scale <= u32::MAX,
        config.offset + canvas_h + stencil.spec_height() * config.scale <= u32::MAX,
    ensures
        r@ == walk_coords(
            stencil.mask(),
            stencil.spec_width() as int,
            config.scale as int,
            grid_origins(canvas_w, canvas_h, config.offset, config.watermark_interval),
            canvas_w,
            canvas_h,
        ),
        forall|j: int|
            0 <= j < r@.len() ==> (#[trigger] r@[j]).0 < canvas_w && r@[j].1 < canvas_h,
{
    let ghost mask = stencil.mask();
    let ghost sw = stencil.spec_width() as int;
    let ghost sc = config.scale as int;
    let origins = tile_origins(canvas_w, canvas_h, config);
    let ghost all = origins@;
    let mut out: Vec<(u32, u32)> = Vec::new();
    let mut k: usize = 0;
    while k < origins.len()
        invariant
            stencil.wf(),
            k <= origins.len(),
            mask == stencil.mask(),
            sw == stencil.spec_width() as int,
            sc == config.scale as int,
            config.scale >= 1,
            config.scale * config.scale <= u32::MAX,
            config.watermark_interval >= 1,
            canvas_w < u32::MAX,
            canvas_h < u32::MAX,
            config.offset + canvas_w + stencil.spec_width() * config.scale <= u32::MAX,
            config.offset + canvas_h + stencil.spec_height() * config.scale <= u32::MAX,
            all == origins@,
            all == grid_origins(canvas_w, canvas_h, config.offset, config.watermark_interval),
            out@ == walk_coords(mask, sw, sc, all.take(k as int), canvas_w, canvas_h),
            forall|j: int|
                0 <= j < out@.len() ==> (#[trigger] out@[j]).0 < canvas_w && out@[j].1 < canvas_h,
        decreases origins.len() - k,
    {
        let origin = origins[k];
        proof {
            let yc = spec_tiles_y(canvas_h, config.watermark_interval);
            let xc = spec_tiles_x(canvas_w, config.watermark_interval);
            let iv = config.watermark_interval as int;
            let tx = k as int / yc;
            let ty = k as int % yc;
            assert(0 <= ty < yc && 0 <= tx < xc) by (nonlinear_arith)
                requires
                    yc >= 1,
                    xc >= 1,
                    0 <= k < xc * yc,
                    tx == k as int / yc,
                    ty == k as int % yc,
            ;
            lemma_mul_inequality(tx, xc - 1, iv);
            lemma_mul_inequality(ty, yc - 1, iv);
            lemma_fundamental_div_mod(canvas_w as int, iv);
            lemma_fundamental_div_mod(canvas_h as int, iv);
            assert((xc - 1) * iv == iv * (canvas_w as int / iv)) by (nonlinear_arith)
                requires
                    xc - 1 == canvas_w as int / iv,
            ;
            assert((yc - 1) * iv == iv * (canvas_h as int / iv)) by (nonlinear_arith)
                requires
                    yc - 1 == canvas_h as int / iv,
            ;
            assert(origin.0 + stencil.spec_width() * config.scale <= u32::MAX);
            assert(origin.1 + stencil.spec_height() * config.scale <= u32::MAX);
        }
        let coords = stencil.tile_positions(origin, config.scale);
        let ghost placement = coords@;
        let mut j: usize = 0;
        while j < coords.len()
            invariant
                j <= coords.len(),
                placement == coords@,
                out@ == walk_coords(mask, sw, sc, all.take(k as int), canvas_w, canvas_h) + clip(
                    placement.take(j as int),
                    canvas_w,
                    canvas_h,
                ),
                forall|jj: int|
                    0 <= jj < out@.len() ==> (#[trigger] out@[jj]).0 < canvas_w && out@[jj].1
                        < canvas_h,
            decreases coords.len() - j,
        {
            let p = coords[j];
            proof {
                lemma_clip_push(placement.take(j as int), p, canvas_w, canvas_h);
                assert(placement.take(j as int + 1) =~= placement.take(j as int).push(p));
                if p.0 < canvas_w && p.1 < canvas_h {
                    assert(out@.push(p) =~= (walk_coords(
                        mask,
                        sw,
                        sc,
                        all.take(k as int),
                        canvas_w,
                        canvas_h,
                    ) + clip(placement.take(j as int), canvas_w, canvas_h)).push(p));
                    assert((walk_coords(mask, sw, sc, all.take(k as int), canvas_w, canvas_h)
                        + clip(placement.take(j as int), canvas_w, canvas_h)).push(p) =~= walk_coords(
                        mask,
                        sw,
                        sc,
                        all.take(k as int),
                        canvas_w,
                        canvas_h,
                    ) + (clip(placement.take(j as int), canvas_w, canvas_h) + seq![p]));
                } else {
                    assert(clip(placement.take(j as int), canvas_w, canvas_h)
                        + Seq::<(u32, u32)>::empty() =~= clip(
                        placement.take(j as int),
                        canvas_w,
                        canvas_h,
                    ));
                }
            }
            if p.0 < canvas_w && p.1 < canvas_h {
                out.push(p);
            }
            j = j + 1;
        }
        proof {
            assert(placement.take(coords@.len() as int) =~= placement);
            lemma_walk_push(mask, sw, sc, all.take(k as int), all[k as int], canvas_w, canvas_h);
            assert(all.take(k as int + 1) =~= all.take(k as int).push(all[k as int]));
        }
        k = k + 1;
    }
    proof {
        assert(all.take(origins@.len() as int) =~= all);
    }
    out
}

} // verus!
