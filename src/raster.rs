use vstd::prelude::*;

verus! {

/// An 8-bit RGB image being filled pixel by pixel.
#[verifier::external_body]
pub struct Raster {
    img: image::RgbImage,
}

/// The samples of a raster, row after row, three per pixel (red, green, blue).
pub uninterp spec fn raster_samples(r: Raster) -> Seq<u8>;

/// Width and height of a raster.
pub uninterp spec fn raster_dimensions(r: Raster) -> (u32, u32);

/// Position of the first sample of pixel `(x, y)` in a raster `width` wide.
pub open spec fn sample_index(width: u32, x: u32, y: u32) -> int {
    3 * ((y as int) * (width as int) + (x as int))
}

impl Raster {
    /// Relies on image::ImageBuffer::new: a `width` by `height` image whose
    /// samples are all zero; it panics when the sample count overflows usize
    /// or is too large for a `Vec`.
    #[verifier::external_body]
    fn blank(width: u32, height: u32) -> (r: Raster)
        requires
            3 * ((width as int) * (height as int)) <= isize::MAX,
        ensures
            raster_dimensions(r) == (width, height),
            raster_samples(r) == Seq::new((3 * (width * height)) as nat, |i: int| 0u8),
    {
        Raster { img: image::ImageBuffer::new(width, height) }
    }

    /// Relies on image::ImageBuffer::put_pixel: the three samples of pixel
    /// `(x, y)`, at `3 * (y * width + x)`, become `rgb`; it panics outside the
    /// image.
    #[verifier::external_body]
    fn put_pixel(&mut self, x: u32, y: u32, rgb: [u8; 3])
        requires
            raster_samples(*old(self)).len() == 3 * (raster_dimensions(*old(self)).0
                * raster_dimensions(*old(self)).1),
            x < raster_dimensions(*old(self)).0,
            y < raster_dimensions(*old(self)).1,
        ensures
            raster_dimensions(*final(self)) == raster_dimensions(*old(self)),
            raster_samples(*final(self)) == raster_samples(*old(self)).update(
                sample_index(raster_dimensions(*old(self)).0, x, y),
                rgb[0],
            ).update(sample_index(raster_dimensions(*old(self)).0, x, y) + 1, rgb[1]).update(
                sample_index(raster_dimensions(*old(self)).0, x, y) + 2,
                rgb[2],
            ),
    {
        self.img.put_pixel(x, y, image::Rgb(rgb))
    }

    /// Relies on image::ImageBuffer::into_raw: the sample buffer itself.
    #[verifier::external_body]
    fn into_samples(self) -> (v: Vec<u8>)
        ensures
            v@ == raster_samples(self),
    {
        self.img.into_raw()
    }
}

/// Column and row of pixel `i` in raster order in an image `width` wide.
pub open spec fn pixel_at(width: u32, i: int) -> (u32, u32) {
    ((i % (width as int)) as u32, (i / (width as int)) as u32)
}

/// Positions of the pixels of a `width` by `height` image in raster order:
/// row after row from the top, left to right within a row, so that pixel
/// `(x, y)` comes at index `y * width + x`.
pub fn pixel_positions(width: u32, height: u32) -> (v: Vec<(u32, u32)>)
    requires
        (width as int) * (height as int) <= usize::MAX,
    ensures
        v.len() == (width as int) * (height as int),
        forall|i: int| 0 <= i < v.len() ==> #[trigger] v[i] == pixel_at(width, i),
{
    let mut v: Vec<(u32, u32)> = Vec::new();
    let n = (width as usize) * (height as usize);
    let mut i: usize = 0;
    while i < n
        invariant
            n == (width as int) * (height as int),
            i <= n,
            v.len() == i,
            forall|k: int| 0 <= k < i ==> #[trigger] v[k] == pixel_at(width, k),
        decreases n - i,
    {
        proof {
            lemma_pixel_in_bounds(width, height, i as int);
        }
        let x = (i % (width as usize)) as u32;
        let y = (i / (width as usize)) as u32;
        v.push((x, y));
        i = i + 1;
    }
    v
}

/// Pixel `i` of a `width` by `height` image lies inside it.
proof fn lemma_pixel_in_bounds(width: u32, height: u32, i: int)
    requires
        0 <= i < (width as int) * (height as int),
    ensures
        width > 0,
        0 <= i % (width as int) < width,
        0 <= i / (width as int) < height,
        i == (i / (width as int)) * (width as int) + i % (width as int),
{
    if width == 0 {
        assert((width as int) * (height as int) == 0);
    }
    vstd::arithmetic::div_mod::lemma_fundamental_div_mod(i, width as int);
    vstd::arithmetic::div_mod::lemma_mod_bound(i, width as int);
    vstd::arithmetic::div_mod::lemma_div_pos_is_pos(i, width as int);
    let q = i / (width as int);
    let r = i % (width as int);
    assert(q < height) by (nonlinear_arith)
        requires
            i == (width as int) * q + r,
            0 <= r,
            i < (width as int) * (height as int),
            width > 0,
    ;
    assert((width as int) * q == q * (width as int)) by (nonlinear_arith);
}

/// The samples of a `width` by `height` image whose pixels, in raster order,
/// have the colors `colors`: three samples per pixel, pixel `i` (which is
/// `pixel_at(width, i)`) at `3 * i`.
pub fn render_raster(width: u32, height: u32, colors: &Vec<[u8; 3]>) -> (samples: Vec<u8>)
    requires
        colors.len() == (width as int) * (height as int),
        3 * ((width as int) * (height as int)) <= isize::MAX,
    ensures
        samples.len() == 3 * colors.len(),
        forall|i: int, c: int|
            0 <= i < colors.len() && 0 <= c < 3 ==> samples[3 * i + c] == colors[i][c],
{
    let mut raster = Raster::blank(width, height);
    let n = colors.len();
    let mut i: usize = 0;
    while i < n
        invariant
            n == colors.len() == (width as int) * (height as int),
            i <= n,
            raster_dimensions(raster) == (width, height),
            raster_samples(raster).len() == 3 * ((width as int) * (height as int)),
            forall|k: int, c: int|
                0 <= k < i && 0 <= c < 3 ==> raster_samples(raster)[3 * k + c] == colors[k][c],
        decreases n - i,
    {
        proof {
            lemma_pixel_in_bounds(width, height, i as int);
        }
        let x = (i % (width as usize)) as u32;
        let y = (i / (width as usize)) as u32;
        assert(sample_index(width, x, y) == 3 * i);
        raster.put_pixel(x, y, colors[i]);
        i = i + 1;
    }
    raster.into_samples()
}

} // verus!
