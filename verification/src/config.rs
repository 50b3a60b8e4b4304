use vstd::prelude::*;

verus! {

/// Run-time parameters of a watermarking run.
///
/// `offset` shifts every tile origin, `watermark_interval` is the spacing in
/// pixels between successive tile origins, and `scale` is the integer
/// magnification applied to each stencil pixel.
pub struct Config {
    pub offset: u32,
    pub watermark_interval: u32,
    pub scale: u32,
}

impl Default for Config {
    /// The defaults used when no persisted configuration exists.
    fn default() -> (r: Config)
        ensures
            r.offset == 0,
            r.watermark_interval == 400,
            r.scale == 2,
    {
        Config { offset: 0, watermark_interval: 400, scale: 2 }
    }
}

} // verus!
