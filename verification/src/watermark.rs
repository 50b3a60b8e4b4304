use vstd::prelude::*;

verus! {

/// The magnified block of canvas coordinates contributed by the stencil pixel
/// at linear index `i` (row-major, stencil width `width`): a `scale * scale`
/// square whose top-left corner is `origin + (i % width, i / width) * scale`,
/// listed row by row.
pub open spec fn ink_block(origin: (u32, u32), width: int, scale: int, i: int) -> Seq<(u32, u32)> {
    Seq::new(
        (scale * scale) as nat,
        |s: int|
            (
                ((origin.0 + (i % width) * scale + s % scale) as u32),
                ((origin.1 + (i / width) * scale + s / scale) as u32),
            ),
    )
}

/// The coordinates yielded by the tiling of one stencil placement, starting at
/// stencil index `i`: each ink pixel contributes its `ink_block`, in index
/// order; blank pixels contribute nothing.
pub open spec fn tile_coords_from(
    mask: Seq<bool>,
    width: int,
    origin: (u32, u32),
    scale: int,
    i: int,
) -> Seq<(u32, u32)>
    decreases mask.len() - i,
{
    if i < 0 || i >= mask.len() {
        Seq::empty()
    } else if mask[i] {
        ink_block(origin, width, scale, i) + tile_coords_from(mask, width, origin, scale, i + 1)
    } else {
        tile_coords_from(mask, width, origin, scale, i + 1)
    }
}

/// All coordinates of one stencil placement at `origin` with magnification
/// `scale`.
pub open spec fn tile_coords(mask: Seq<bool>, width: int, origin: (u32, u32), scale: int) -> Seq<
    (u32, u32),
> {
    tile_coords_from(mask, width, origin, scale, 0)
}

/// The canvas coordinate of the stencil pixel at linear index `k` when the
/// stencil is placed at `origin` without magnification.
pub open spec fn ink_point(origin: (u32, u32), width: int, k: int) -> (u32, u32) {
    (((origin.0 + k % width) as u32), ((origin.1 + k / width) as u32))
}

/// The number of ink pixels at index `i` or later.
pub open spec fn ink_count_from(mask: Seq<bool>, i: int) -> nat
    decreases mask.len() - i,
{
    if i < 0 || i >= mask.len() {
        0
    } else {
        (if mask[i] {
            1nat
        } else {
            0nat
        }) + ink_count_from(mask, i + 1)
    }
}

/// The number of ink pixels of a stencil mask.
pub open spec fn ink_count(mask: Seq<bool>) -> nat {
    ink_count_from(mask, 0)
}

/// Skipping the first element of a concatenation skips it inside the left part.
proof fn lemma_add_skip1<T>(a: Seq<T>, b: Seq<T>)
    requires
        a.len() >= 1,
    ensures
        (a + b).skip(1) =~= a.skip(1) + b,
{
}

/// Two successive skips collapse into one.
proof fn lemma_skip_skip1<T>(a: Seq<T>, n: int)
    requires
        0 <= n,
        n + 1 <= a.len(),
    ensures
        a.skip(n).skip(1) =~= a.skip(n + 1),
{
}

/// A binary stencil: `mask()[y * width + x]` is true iff the watermark source
/// pixel at `(x, y)` is ink (all three colour channels exactly zero).
pub struct Watermark {
    width: u32,
    height: u32,
    data: Vec<bool>,
}

impl Watermark {
    /// Stencil width in pixels.
    pub closed spec fn spec_width(&self) -> u32 {
        self.width
    }

    /// Stencil height in pixels.
    pub closed spec fn spec_height(&self) -> u32 {
        self.height
    }

    /// The row-major ink mask.
    pub closed spec fn mask(&self) -> Seq<bool> {
        self.data@
    }

    /// The mask covers exactly the stencil area, whose size fits the
    /// `u32` index arithmetic of the iterator.
    pub open spec fn wf(&self) -> bool {
        &&& self.mask().len() == self.spec_width() * self.spec_height()
        &&& self.spec_width() * self.spec_height() <= u32::MAX
    }

    /// Builds the stencil from a decoded RGB watermark image: pixel `i` is ink
    /// iff its three channel bytes `rgb[3*i .. 3*i+3]` are all zero.
    pub fn from_rgb(width: u32, height: u32, rgb: &[u8]) -> (r: Watermark)
        requires
            width * height <= u32::MAX,
            rgb@.len() >= 3 * (width * height),
        ensures
            r.wf(),
            r.spec_width() == width,
            r.spec_height() == height,
            forall|i: int|
                0 <= i < width * height ==> r.mask()[i] == (rgb@[3 * i] == 0 && rgb@[3 * i + 1]
                    == 0 && rgb@[3 * i + 2] == 0),
    {
        let data_size: u32 = width * height;
        let len: usize = rgb.len();
        let mut data: Vec<bool> = Vec::new();
        let mut i: usize = 0;
        while i < data_size as usize
            invariant
                i <= data_size,
                data_size == width * height,
                len == rgb@.len(),
                len >= 3 * (width * height),
                data@.len() == i,
                forall|j: int|
                    0 <= j < i ==> data@[j] == (rgb@[3 * j] == 0 && rgb@[3 * j + 1] == 0 && rgb@[3
                        * j + 2] == 0),
            decreases data_size - i,
        {
            let ink = rgb[3 * i] == 0 && rgb[3 * i + 1] == 0 && rgb[3 * i + 2] == 0;
            data.push(ink);
            i = i + 1;
        }
        Watermark { width, height, data }
    }

    /// One placement of this stencil at `position`, magnified by `scale`.
    pub fn get_iter(&self, position: (u32, u32), scale: u32) -> (r: WatermarkIterator)
        requires
            self.wf(),
            scale >= 1,
            scale * scale <= u32::MAX,
            position.0 + self.spec_width() * scale <= u32::MAX,
            position.1 + self.spec_height() * scale <= u32::MAX,
        ensures
            r.wf(),
            r.remaining() == tile_coords(
                self.mask(),
                self.spec_width() as int,
                position,
                scale as int,
            ),
    {
        WatermarkIterator::new(position, scale, self)
    }

    /// Materializes the full coordinate sequence of one placement of this
    /// stencil at `position`, magnified by `scale`.
    pub fn tile_positions(&self, position: (u32, u32), scale: u32) -> (r: Vec<(u32, u32)>)
        requires
            self.wf(),
            scale >= 1,
            scale * scale <= u32::MAX,
            position.0 + self.spec_width() * scale <= u32::MAX,
            position.1 + self.spec_height() * scale <= u32::MAX,
        ensures
            r@ == tile_coords(self.mask(), self.spec_width() as int, position, scale as int),
    {
        let ghost full = tile_coords(
            self.mask(),
            self.spec_width() as int,
            position,
            scale as int,
        );
        let mut it = self.get_iter(position, scale);
        let mut out: Vec<(u32, u32)> = Vec::new();
        loop
            invariant
                it.wf(),
                out@ + it.remaining() == full,
                full == tile_coords(self.mask(), self.spec_width() as int, position, scale as int),
            ensures
                out@ == full,
            decreases it.remaining().len(),
        {
            let ghost rem = it.remaining();
            match it.next() {
                Some(p) => {
                    proof {
                        assert(out@.push(p) + rem.skip(1) =~= out@ + rem);
                    }
                    out.push(p);
                },
                None => {
                    proof {
                        assert(out@ + rem =~= out@);
                    }
                    break ;
                },
            }
        }
        out
    }

    pub fn width(&self) -> (r: u32)
        ensures
            r == self.spec_width(),
    {
        self.width
    }

    pub fn height(&self) -> (r: u32)
        ensures
            r == self.spec_height(),
    {
        self.height
    }

    pub fn data(&self) -> (r: &[bool])
        ensures
            r@ == self.mask(),
    {
        self.data.as_slice()
    }
}

/// A forward-only cursor over the coordinates of one stencil placement:
/// `current_pixel_index` walks the mask, and `scale_index` walks the
/// `scale * scale` block of the current ink pixel.
pub struct WatermarkIterator<'a> {
    watermark: &'a Watermark,
    position: (u32, u32),
    scale: u32,
    scale_index: u32,
    current_pixel_index: u32,
}

impl<'a> WatermarkIterator<'a> {
    /// Cursors are in range, coordinate arithmetic cannot wrap, and a nonzero
    /// `scale_index` means the cursor rests mid-block on an ink pixel.
    pub closed spec fn wf(&self) -> bool {
        &&& self.watermark.wf()
        &&& self.scale >= 1
        &&& self.scale * self.scale <= u32::MAX
        &&& self.position.0 + self.watermark.spec_width() * self.scale <= u32::MAX
        &&& self.position.1 + self.watermark.spec_height() * self.scale <= u32::MAX
        &&& self.current_pixel_index <= self.watermark.mask().len()
        &&& self.scale_index < self.scale * self.scale
        &&& (self.scale_index > 0 ==> self.current_pixel_index < self.watermark.mask().len()
            && self.watermark.mask()[self.current_pixel_index as int])
    }

    /// The coordinates this iterator has yet to yield.
    pub closed spec fn remaining(&self) -> Seq<(u32, u32)> {
        let mask = self.watermark.mask();
        let width = self.watermark.spec_width() as int;
        if self.scale_index == 0 {
            tile_coords_from(
                mask,
                width,
                self.position,
                self.scale as int,
                self.current_pixel_index as int,
            )
        } else {
            ink_block(self.position, width, self.scale as int, self.current_pixel_index as int)
                .skip(self.scale_index as int) + tile_coords_from(
                mask,
                width,
                self.position,
                self.scale as int,
                self.current_pixel_index as int + 1,
            )
        }
    }

    pub fn new(position: (u32, u32), scale: u32, watermark: &'a Watermark) -> (r:
        WatermarkIterator<'a>)
        requires
            watermark.wf(),
            scale >= 1,
            scale * scale <= u32::MAX,
            position.0 + watermark.spec_width() * scale <= u32::MAX,
            position.1 + watermark.spec_height() * scale <= u32::MAX,
        ensures
            r.wf(),
            r.remaining() == tile_coords(
                watermark.mask(),
                watermark.spec_width() as int,
                position,
                scale as int,
            ),
    {
        proof {
            assert(scale * scale >= 1) by (nonlinear_arith)
                requires
                    scale >= 1,
            ;
        }
        WatermarkIterator { position, watermark, scale, scale_index: 0, current_pixel_index: 0 }
    }

    /// Yields the next coordinate of the placement, or `None` once every ink
    /// pixel's block has been produced.
    pub fn next(&mut self) -> (r: Option<(u32, u32)>)
        requires
            old(self).wf(),
        ensures
            final(self).wf(),
            old(self).remaining().len() == 0 ==> r is None && final(self).remaining() == old(self).remaining(),
            old(self).remaining().len() > 0 ==> r == Some(old(self).remaining()[0])
                && final(self).remaining() == old(self).remaining().skip(1),
    {
        let ghost pre = *self;
        let ghost mask = pre.watermark.mask();
        let ghost w = pre.watermark.spec_width() as int;
        let ghost sc = pre.scale as int;

        if self.scale_index == 0 && self.current_pixel_index as usize >= self.watermark.data.len() {
            proof {
                assert(pre.remaining() =~= Seq::<(u32, u32)>::empty());
            }
            return None;
        }

        if self.scale_index == 0 {
            while !self.watermark.data[self.current_pixel_index as usize]
                invariant
                    self.wf(),
                    self.watermark == pre.watermark,
                    self.position == pre.position,
                    self.scale == pre.scale,
                    self.scale_index == 0,
                    pre.scale_index == 0,
                    pre == *old(self),
                    mask == pre.watermark.mask(),
                    w == pre.watermark.spec_width() as int,
                    sc == pre.scale as int,
                    self.current_pixel_index < self.watermark.mask().len(),
                    self.remaining() == pre.remaining(),
                decreases self.watermark.mask().len() - self.current_pixel_index,
            {
                proof {
                    // a blank pixel contributes nothing
                    assert(tile_coords_from(mask, w, pre.position, sc, self.current_pixel_index as int)
                        == tile_coords_from(
                        mask,
                        w,
                        pre.position,
                        sc,
                        self.current_pixel_index as int + 1,
                    ));
                }
                self.current_pixel_index = self.current_pixel_index + 1;
                if self.current_pixel_index as usize >= self.watermark.data.len() {
                    proof {
                        assert(pre.remaining() =~= Seq::<(u32, u32)>::empty());
                    }
                    return None;
                }
            }
        }

        let idx = self.current_pixel_index;
        let si = self.scale_index;
        proof {
            assert(self.watermark.mask()[idx as int]);
            assert(self.watermark.spec_width() >= 1) by (nonlinear_arith)
                requires
                    self.watermark.spec_width() * self.watermark.spec_height()
                        > self.current_pixel_index >= 0,
            ;
            assert(0 <= idx as int % w < w);
            assert(0 <= si as int % sc < sc);
            assert(idx as int / w < self.watermark.spec_height()) by (nonlinear_arith)
                requires
                    w >= 1,
                    0 <= idx < w * self.watermark.spec_height(),
            ;
            assert(si as int / sc < sc) by (nonlinear_arith)
                requires
                    sc >= 1,
                    0 <= si < sc * sc,
            ;
            assert((idx as int % w) * sc + si as int % sc < w * sc) by (nonlinear_arith)
                requires
                    sc >= 1,
                    0 <= idx as int % w < w,
                    0 <= si as int % sc < sc,
            ;
            assert((idx as int / w) * sc + si as int / sc < self.watermark.spec_height() * sc)
                by (nonlinear_arith)
                requires
                    sc >= 1,
                    0 <= idx as int / w,
                    idx as int / w < self.watermark.spec_height(),
                    0 <= si as int / sc < sc,
            ;
        }
        let sx = idx % self.watermark.width;
        let sy = idx / self.watermark.width;
        let bx = sx * self.scale + si % self.scale;
        let by = sy * self.scale + si / self.scale;
        let pos = (self.position.0 + bx, self.position.1 + by);

        self.scale_index = self.scale_index + 1;
        if self.scale_index >= self.scale * self.scale {
            self.scale_index = 0;
            self.current_pixel_index = self.current_pixel_index + 1;
        }

        proof {
            let block = ink_block(pre.position, w, sc, idx as int);
            let rest = tile_coords_from(mask, w, pre.position, sc, idx as int + 1);
            let si0 = si as int;
            assert(block.len() == sc * sc);
            if si0 == 0 {
                assert(tile_coords_from(mask, w, pre.position, sc, idx as int) == block + rest);
                assert(block.skip(0) =~= block);
            }
            assert(pre.remaining() =~= block.skip(si0) + rest);
            assert(block.skip(si0).len() == sc * sc - si0 >= 1);
            assert(pre.remaining()[0] == block.skip(si0)[0]);
            assert(block.skip(si0)[0] == block[si0]);
            assert(pos == block[si0]);
            lemma_add_skip1(block.skip(si0), rest);
            lemma_skip_skip1(block, si0);
            assert(pre.remaining().skip(1) =~= block.skip(si0 + 1) + rest);
            if si0 + 1 == sc * sc {
                assert(block.skip(si0 + 1).len() == 0);
                assert(block.skip(si0 + 1) + rest =~= rest);
                assert(self.remaining() == rest);
            } else {
                assert(self.remaining() =~= block.skip(si0 + 1) + rest);
            }
        }
        Some(pos)
    }
}

proof fn lemma_tile_coords_from_len(
    mask: Seq<bool>,
    width: int,
    origin: (u32, u32),
    scale: int,
    i: int,
)
    ensures
        tile_coords_from(mask, width, origin, scale, i).len() == ink_count_from(mask, i) * (scale
            * scale),
    decreases mask.len() - i,
{
    assert(scale * scale >= 0) by (nonlinear_arith);
    if i < 0 || i >= mask.len() {
        assert(ink_count_from(mask, i) * (scale * scale) == 0) by (nonlinear_arith)
            requires
                ink_count_from(mask, i) == 0,
        ;
    } else {
        lemma_tile_coords_from_len(mask, width, origin, scale, i + 1);
        if mask[i] {
            let block = ink_block(origin, width, scale, i);
            let rest = tile_coords_from(mask, width, origin, scale, i + 1);
            assert(tile_coords_from(mask, width, origin, scale, i) == block + rest);
            assert(block.len() == scale * scale);
            assert(ink_count_from(mask, i) == 1 + ink_count_from(mask, i + 1));
            assert((1 + ink_count_from(mask, i + 1)) * (scale * scale) == scale * scale
                + ink_count_from(mask, i + 1) * (scale * scale)) by (nonlinear_arith);
        }
    }
}

/// Law: one placement of a stencil with `ink_count(mask)` ink pixels,
/// magnified by `scale`, yields exactly `ink_count(mask) * scale * scale`
/// coordinates, whatever the origin.
pub proof fn lemma_tile_coords_count(mask: Seq<bool>, width: int, origin: (u32, u32), scale: int)
    ensures
        tile_coords(mask, width, origin, scale).len() == ink_count(mask) * (scale * scale),
{
    lemma_tile_coords_from_len(mask, width, origin, scale, 0);
}

/// Law: a stencil with no ink pixels yields an empty sequence, for any origin
/// and any magnification.
pub proof fn lemma_no_ink_no_coords(mask: Seq<bool>, width: int, origin: (u32, u32), scale: int)
    requires
        ink_count(mask) == 0,
    ensures
        tile_coords(mask, width, origin, scale).len() == 0,
{
    lemma_tile_coords_count(mask, width, origin, scale);
    assert(0 * (scale * scale) == 0);
}

proof fn lemma_tile_coords_from_bounds(
    mask: Seq<bool>,
    width: int,
    height: int,
    origin: (u32, u32),
    scale: int,
    i: int,
)
    requires
        width >= 0,
        height >= 0,
        mask.len() == width * height,
        scale >= 1,
        origin.0 + width * scale <= u32::MAX,
        origin.1 + height * scale <= u32::MAX,
        0 <= i,
    ensures
        forall|j: int|
            0 <= j < tile_coords_from(mask, width, origin, scale, i).len() ==> {
                &&& origin.0 <= (#[trigger] tile_coords_from(mask, width, origin, scale, i)[j]).0
                    < origin.0 + width * scale
                &&& origin.1 <= tile_coords_from(mask, width, origin, scale, i)[j].1 < origin.1
                    + height * scale
            },
    decreases mask.len() - i,
{
    if i < 0 || i >= mask.len() {
    } else {
        lemma_tile_coords_from_bounds(mask, width, height, origin, scale, i + 1);
        let cur = tile_coords_from(mask, width, origin, scale, i);
        let rest = tile_coords_from(mask, width, origin, scale, i + 1);
        if mask[i] {
            let block = ink_block(origin, width, scale, i);
            assert(width >= 1) by (nonlinear_arith)
                requires
                    width >= 0,
                    height >= 0,
                    mask.len() == width * height,
                    0 <= i < mask.len(),
            ;
            assert(i / width < height) by (nonlinear_arith)
                requires
                    width >= 1,
                    0 <= i < width * height,
            ;
            assert forall|j: int| 0 <= j < block.len() implies origin.0 <= (
            #[trigger] block[j]).0 < origin.0 + width * scale && origin.1 <= block[j].1 < origin.1
                + height * scale by {
                assert(0 <= j % scale < scale);
                assert(0 <= j / scale < scale) by (nonlinear_arith)
                    requires
                        scale >= 1,
                        0 <= j < scale * scale,
                ;
                assert((i % width) * scale + j % scale < width * scale) by (nonlinear_arith)
                    requires
                        scale >= 1,
                        0 <= i % width < width,
                        0 <= j % scale < scale,
                ;
                assert((i / width) * scale + j / scale < height * scale) by (nonlinear_arith)
                    requires
                        scale >= 1,
                        0 <= i / width < height,
                        0 <= j / scale < scale,
                ;
            };
            assert forall|j: int|
                0 <= j < cur.len() implies origin.0 <= (#[trigger] cur[j]).0 < origin.0 + width
                * scale && origin.1 <= cur[j].1 < origin.1 + height * scale by {
                if j < block.len() {
                    assert(cur[j] == block[j]);
                } else {
                    assert(cur[j] == rest[j - block.len()]);
                }
            };
        }
    }
}

/// Law: every yielded coordinate lies within the half-open box
/// `[origin, origin + (width * scale, height * scale))` of the magnified
/// stencil placement.
pub proof fn lemma_tile_coords_in_bounds(
    mask: Seq<bool>,
    width: int,
    height: int,
    origin: (u32, u32),
    scale: int,
)
    requires
        width >= 0,
        height >= 0,
        mask.len() == width * height,
        scale >= 1,
        origin.0 + width * scale <= u32::MAX,
        origin.1 + height * scale <= u32::MAX,
    ensures
        forall|j: int|
            0 <= j < tile_coords(mask, width, origin, scale).len() ==> {
                &&& origin.0 <= (#[trigger] tile_coords(mask, width, origin, scale)[j]).0
                    < origin.0 + width * scale
                &&& origin.1 <= tile_coords(mask, width, origin, scale)[j].1 < origin.1 + height
                    * scale
            },
{
    lemma_tile_coords_from_bounds(mask, width, height, origin, scale, 0);
}

proof fn lemma_tile_coords_from_scale_one(mask: Seq<bool>, width: int, origin: (u32, u32), i: int)
    requires
        0 <= i,
    ensures
        forall|p: (u32, u32)|
            #[trigger] tile_coords_from(mask, width, origin, 1, i).contains(p) <==> exists|k: int|
                i <= k < mask.len() && mask[k] && p == #[trigger] ink_point(origin, width, k),
    decreases mask.len() - i,
{
    let cur = tile_coords_from(mask, width, origin, 1, i);
    if i < 0 || i >= mask.len() {
        assert(cur.len() == 0);
    } else {
        lemma_tile_coords_from_scale_one(mask, width, origin, i + 1);
        let rest = tile_coords_from(mask, width, origin, 1, i + 1);
        if mask[i] {
            let block = ink_block(origin, width, 1, i);
            assert(block.len() == 1);
            assert(block[0] == ink_point(origin, width, i));
            assert forall|p: (u32, u32)| #[trigger] cur.contains(p) implies exists|k: int|
                i <= k < mask.len() && mask[k] && p == #[trigger] ink_point(origin, width, k) by {
                let j = choose|j: int| 0 <= j < cur.len() && cur[j] == p;
                if j == 0 {
                    assert(p == ink_point(origin, width, i));
                    assert(i <= i < mask.len() && mask[i] && p == ink_point(origin, width, i));
                } else {
                    assert(rest[j - 1] == p);
                    assert(rest.contains(p));
                }
            };
            assert forall|p: (u32, u32)|
                (exists|k: int|
                    i <= k < mask.len() && mask[k] && p == #[trigger] ink_point(
                        origin,
                        width,
                        k,
                    )) implies #[trigger] cur.contains(p) by {
                let k = choose|k: int|
                    i <= k < mask.len() && mask[k] && p == ink_point(origin, width, k);
                if k == i {
                    assert(cur[0] == p);
                } else {
                    assert(rest.contains(p));
                    let j = choose|j: int| 0 <= j < rest.len() && rest[j] == p;
                    assert(cur[j + 1] == p);
                }
            };
        } else {
            assert(cur == rest);
            assert forall|p: (u32, u32)|
                (exists|k: int|
                    i <= k < mask.len() && mask[k] && p == #[trigger] ink_point(
                        origin,
                        width,
                        k,
                    )) implies #[trigger] cur.contains(p) by {
                let k = choose|k: int|
                    i <= k < mask.len() && mask[k] && p == ink_point(origin, width, k);
                assert(k != i);
            };
        }
    }
}

/// Law: at magnification 1 the yielded coordinates are exactly the set of
/// origin-shifted ink pixels of the stencil.
pub proof fn lemma_tile_coords_scale_one(mask: Seq<bool>, width: int, origin: (u32, u32))
    ensures
        forall|p: (u32, u32)|
            #[trigger] tile_coords(mask, width, origin, 1).contains(p) <==> exists|k: int|
                0 <= k < mask.len() && mask[k] && p == #[trigger] ink_point(origin, width, k),
{
    lemma_tile_coords_from_scale_one(mask, width, origin, 0);
}

} // verus!
