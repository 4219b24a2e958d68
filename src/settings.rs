use vstd::prelude::*;

verus! {

/// The discrete part of a camera's configuration: image size in pixels,
/// samples per pixel and the bounce budget of each light path.
#[derive(Clone, Copy, Debug, PartialEq, Eq, Structural)]
pub struct RenderSettings {
    pub image_width: u32,
    pub image_height: u32,
    pub num_samples: u32,
    pub max_bounce_depth: u32,
}

/// `value`, or one where `value` is zero.
pub open spec fn at_least_one(value: u32) -> u32 {
    if value > 0 {
        value
    } else {
        1
    }
}

impl RenderSettings {
    /// Settings are usable when the image has at least one row and each pixel
    /// takes at least one sample, so that averaging the samples is defined.
    pub open spec fn wf(&self) -> bool {
        self.image_height >= 1 && self.num_samples >= 1
    }

    /// Settings for an image `image_width` pixels wide whose height, the width
    /// divided by the aspect ratio and truncated, is `scaled_height`.
    ///
    /// A height that truncates to zero becomes one row, and a sample count of
    /// zero becomes one sample.
    pub fn new(image_width: u32, scaled_height: u32, num_samples: u32, max_bounce_depth: u32) -> (s:
        RenderSettings)
        ensures
            s.wf(),
            s.image_width == image_width,
            s.image_height == at_least_one(scaled_height),
            s.num_samples == at_least_one(num_samples),
            s.max_bounce_depth == max_bounce_depth,
    {
        let image_height = if scaled_height > 0 {
            scaled_height
        } else {
            1
        };
        let num_samples = if num_samples > 0 {
            num_samples
        } else {
            1
        };
        RenderSettings { image_width, image_height, num_samples, max_bounce_depth }
    }

    /// Number of pixels of the image.
    pub fn pixel_count(&self) -> (n: u64)
        ensures
            n == (self.image_width as int) * (self.image_height as int),
    {
        proof {
            vstd::arithmetic::mul::lemma_mul_upper_bound(
                self.image_width as int,
                u32::MAX as int,
                self.image_height as int,
                u32::MAX as int,
            );
        }
        (self.image_width as u64) * (self.image_height as u64)
    }
}

} // verus!
