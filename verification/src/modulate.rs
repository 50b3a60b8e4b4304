use rand::RngExt;
use vstd::prelude::*;

verus! {

#[verifier::external_type_specification]
#[verifier::external_body]
pub struct ExStdRng(rand::rngs::StdRng);

/// Relies on rand's `RngExt::random_range` over `0..upper`: it returns a value
/// uniformly drawn from `[0, upper)` and panics only on an empty range, which
/// `upper > 0` rules out.
#[verifier::external_body]
fn draw_below(rng: &mut rand::rngs::StdRng, upper: u8) -> (r: u8)
    requires
        upper > 0,
    ensures
        r < upper,
{
    rng.random_range(0..upper)
}

/// The default divisor of the brightening rule: a channel may gain at most
/// `headroom - headroom / 5`, i.e. four fifths of its headroom.
pub const HEADROOM_DIVISOR: u8 = 5;

/// How far channel value `v` is below pure white.
pub open spec fn spec_headroom(v: u8) -> int {
    255 - v
}

/// The exclusive upper bound of the random brightening draw for channel value
/// `v`: the headroom less its `divisor`-th part.
pub open spec fn spec_upper(v: u8, divisor: u8) -> int {
    spec_headroom(v) - spec_headroom(v) / divisor as int
}

/// The largest amount the brightening rule may add to channel value `v`.
pub fn channel_upper_bound(v: u8, divisor: u8) -> (r: u8)
    requires
        divisor >= 1,
    ensures
        r == spec_upper(v, divisor),
        r <= spec_headroom(v),
{
    let dist = 255 - v;
    dist - dist / divisor
}

/// The random brightening draw for a channel holding `v`: zero when the rule
/// leaves no room (in particular on a fully bright channel), otherwise a value
/// strictly below `spec_upper(v, divisor)`. The draw never exceeds the
/// channel's headroom, so brightening by it cannot pass 255.
pub fn channel_raw_effect(rng: &mut rand::rngs::StdRng, v: u8, divisor: u8) -> (r: u8)
    requires
        divisor >= 1,
    ensures
        r <= spec_headroom(v),
        spec_upper(v, divisor) == 0 ==> r == 0,
        spec_upper(v, divisor) > 0 ==> r < spec_upper(v, divisor),
        v == 255 ==> r == 0,
{
    let upper = channel_upper_bound(v, divisor);
    if upper > 0 {
        draw_below(rng, upper)
    } else {
        0
    }
}

/// Adds `applied` to channel value `v` under the additive rule's wrapping
/// semantics: the sum is taken modulo 256 rather than saturated, so a caller
/// that exceeds the headroom wraps around — a deliberate property of the
/// rule, not a repair. Within the headroom the result is exact and never
/// below `v`.
pub fn apply_channel(v: u8, applied: u8) -> (r: u8)
    ensures
        r == (v + applied) % 256,
        v + applied <= 255 ==> r == v + applied && r >= v,
{
    (((v as u16) + (applied as u16)) % 256) as u8
}

/// Law: brightening is monotone. Any attenuation `applied` of a raw draw that
/// respects the channel's headroom — as every draw of `channel_raw_effect`
/// does — adds to the channel without wrapping: the new value is exact, at
/// least the old one, and at most pure white.
pub proof fn lemma_brightening_monotone(v: u8, raw: u8, applied: u8)
    requires
        applied <= raw,
        raw <= spec_headroom(v),
    ensures
        (v + applied) % 256 == v + applied,
        v <= v + applied <= 255,
{
}

/// Bytes per pixel of the buffer layout.
pub open spec fn spec_bpp(has_alpha: bool) -> int {
    if has_alpha {
        4
    } else {
        3
    }
}

/// Position of pixel `(x, y)`'s first channel byte in a row-major buffer of
/// width `canvas_w`.
pub open spec fn spec_pixel_index(x: u32, y: u32, canvas_w: u32, has_alpha: bool) -> int {
    (y * canvas_w + x) * spec_bpp(has_alpha)
}

/// The first channel byte of pixel `(x, y)`, computed in the 32-bit index
/// arithmetic of the pixel buffer.
pub fn pixel_index(x: u32, y: u32, canvas_w: u32, has_alpha: bool) -> (r: usize)
    requires
        x < canvas_w,
        spec_pixel_index(x, y, canvas_w, has_alpha) + spec_bpp(has_alpha) <= u32::MAX,
    ensures
        r == spec_pixel_index(x, y, canvas_w, has_alpha),
{
    let bpp: u32 = if has_alpha {
        4
    } else {
        3
    };
    (((y * canvas_w) + x) * bpp) as usize
}

/// Brightens one pixel in place: adds the three `applied` amounts to its
/// R, G and B bytes under the wrapping rule of `apply_channel`, forces the
/// alpha byte to fully opaque when present, and leaves every other byte of
/// the buffer untouched.
pub fn modulate_pixel(
    buf: &mut Vec<u8>,
    x: u32,
    y: u32,
    canvas_w: u32,
    has_alpha: bool,
    applied: (u8, u8, u8),
)
    requires
        x < canvas_w,
        spec_pixel_index(x, y, canvas_w, has_alpha) + spec_bpp(has_alpha) <= u32::MAX,
        spec_pixel_index(x, y, canvas_w, has_alpha) + spec_bpp(has_alpha) <= old(buf)@.len(),
    ensures
        final(buf)@.len() == old(buf)@.len(),
        ({
            let base = spec_pixel_index(x, y, canvas_w, has_alpha);
            &&& final(buf)@[base] == (old(buf)@[base] + applied.0) % 256
            &&& final(buf)@[base + 1] == (old(buf)@[base + 1] + applied.1) % 256
            &&& final(buf)@[base + 2] == (old(buf)@[base + 2] + applied.2) % 256
            &&& (has_alpha ==> final(buf)@[base + 3] == 255)
            &&& forall|j: int|
                0 <= j < old(buf)@.len() && !(base <= j < base + spec_bpp(has_alpha))
                    ==> final(buf)@[j] == old(buf)@[j]
        }),
{
    let base = pixel_index(x, y, canvas_w, has_alpha);
    let r = apply_channel(buf[base], applied.0);
    let g = apply_channel(buf[base + 1], applied.1);
    let b = apply_channel(buf[base + 2], applied.2);
    buf.set(base, r);
    buf.set(base + 1, g);
    buf.set(base + 2, b);
    if has_alpha {
        buf.set(base + 3, 255);
    }
}

} // verus!
