//! Colour samples that a character grid can be painted with.

use vstd::prelude::*;

verus! {

/// An image of 8-bit red, green, blue and alpha samples: four bytes per
/// pixel, pixels row by row.
pub struct ColorImage {
    width: u32,
    height: u32,
    data: Vec<u8>,
}

/// One pixel of a `ColorImage`.
#[derive(Clone, Copy, Debug, PartialEq, Eq)]
pub struct Rgba {
    pub r: u8,
    pub g: u8,
    pub b: u8,
    pub a: u8,
}

/// The bytes of the image that `image::DynamicImage::resize_exact` makes,
/// with the filter `Nearest`, of an RGBA image that holds `data` in `width`
/// columns and `height` rows, when it is asked for `new_width` columns and
/// `new_height` rows.
pub uninterp spec fn nearest_resampled(
    data: Seq<u8>,
    width: nat,
    height: nat,
    new_width: nat,
    new_height: nat,
) -> Seq<u8>;

/// Calls `image::DynamicImage::resize_exact` with the filter `Nearest` on an
/// 8-bit RGBA image made of `data`, and hands back the bytes of the result.
/// The crate's source shows that the result has the size asked for and is
/// computed from these arguments alone; which source pixel each new pixel
/// takes is left to that crate. The sizes that make the crate's buffers
/// overflow, and an empty source, are kept out.
#[verifier::external_body]
fn resample_nearest(data: &Vec<u8>, width: u32, height: u32, new_width: u32, new_height: u32) -> (r:
    Vec<u8>)
    requires
        data@.len() == 4 * (width * height),
        width > 0,
        height > 0,
        16 * (width * new_height) <= isize::MAX,
        16 * (new_width * new_height) <= isize::MAX,
    ensures
        r@ == nearest_resampled(
            data@,
            width as nat,
            height as nat,
            new_width as nat,
            new_height as nat,
        ),
        r@.len() == 4 * (new_width * new_height),
{
    let source = ::image::RgbaImage::from_raw(width, height, data.clone()).unwrap();
    ::image::DynamicImage::ImageRgba8(source).resize_exact(
        new_width,
        new_height,
        ::image::imageops::FilterType::Nearest,
    ).to_rgba8().into_raw()
}

impl ColorImage {
    /// The buffer holds exactly four bytes for each pixel.
    pub closed spec fn wf(&self) -> bool {
        self.data@.len() == 4 * (self.width * self.height) <= usize::MAX
    }

    pub closed spec fn spec_width(&self) -> nat {
        self.width as nat
    }

    pub closed spec fn spec_height(&self) -> nat {
        self.height as nat
    }

    /// The bytes, four per pixel, pixels row by row.
    pub closed spec fn view(&self) -> Seq<u8> {
        self.data@
    }

    /// The pixel at place `i`, counted row by row.
    pub open spec fn pixel(&self, i: int) -> Rgba {
        Rgba { r: self@[4 * i], g: self@[4 * i + 1], b: self@[4 * i + 2], a: self@[4 * i + 3] }
    }

    /// What `wf` says of the views.
    pub proof fn lemma_wf(&self)
        requires
            self.wf(),
        ensures
            self@.len() == 4 * (self.spec_width() * self.spec_height()) <= usize::MAX,
            self.spec_width() <= u32::MAX,
            self.spec_height() <= u32::MAX,
    {
    }

    /// Makes an image from its bytes. Returns `None` exactly when their
    /// number is not `4 * (width * height)`.
    pub fn from_rgba(width: u32, height: u32, data: Vec<u8>) -> (r: Option<ColorImage>)
        ensures
            r.is_some() <==> data@.len() == 4 * (width * height),
            r matches Some(img) ==> img.wf() && img.spec_width() == width && img.spec_height()
                == height && img@ == data@,
    {
        assert(0 <= width * height <= 0xffff_ffff * 0xffff_ffff) by (nonlinear_arith)
            requires
                0 <= width <= 0xffff_ffff,
                0 <= height <= 0xffff_ffff,
        ;
        let need: u128 = 4 * ((width as u128) * (height as u128));
        let len: usize = data.len();
        if need == len as u128 {
            Some(ColorImage { width, height, data })
        } else {
            None
        }
    }

    pub fn width(&self) -> (w: u32)
        ensures
            w == self.spec_width(),
    {
        self.width
    }

    pub fn height(&self) -> (h: u32)
        ensures
            h == self.spec_height(),
    {
        self.height
    }

    /// The pixel at place `i`, counted row by row.
    pub fn pixel_at(&self, i: usize) -> (p: Rgba)
        requires
            self.wf(),
            i < self.spec_width() * self.spec_height(),
        ensures
            p == self.pixel(i as int),
    {
        let at: usize = 4 * i;
        Rgba { r: self.data[at], g: self.data[at + 1], b: self.data[at + 2], a: self.data[at + 3] }
    }

    /// Whether the outside resampler takes an image of this size to
    /// `new_width` × `new_height`: the source is not empty, and neither of
    /// the two buffers it fills is longer than the machine allows.
    pub open spec fn resizable(&self, new_width: u32, new_height: u32) -> bool {
        &&& self.spec_width() > 0
        &&& self.spec_height() > 0
        &&& 16 * (self.spec_width() * new_height) <= isize::MAX
        &&& 16 * (new_width * new_height) <= isize::MAX
    }

    /// Decides `resizable`.
    pub fn can_resize(&self, new_width: u32, new_height: u32) -> (r: bool)
        requires
            self.wf(),
        ensures
            r == self.resizable(new_width, new_height),
    {
        if self.width == 0 || self.height == 0 {
            return false;
        }
        assert(0 <= self.width * new_height <= 0xffff_ffff * 0xffff_ffff && 0 <= new_width
            * new_height <= 0xffff_ffff * 0xffff_ffff) by (nonlinear_arith)
            requires
                0 <= self.width <= 0xffff_ffff,
                0 <= new_width <= 0xffff_ffff,
                0 <= new_height <= 0xffff_ffff,
        ;
        let first: u128 = 16 * ((self.width as u128) * (new_height as u128));
        let second: u128 = 16 * ((new_width as u128) * (new_height as u128));
        let limit: u128 = isize::MAX as u128;
        first <= limit && second <= limit
    }

    /// The image brought to `new_width` × `new_height`, each new pixel taken
    /// from the source by the outside crate's nearest-neighbour filter.
    pub fn resize_nearest(&self, new_width: u32, new_height: u32) -> (r: ColorImage)
        requires
            self.wf(),
            self.resizable(new_width, new_height),
        ensures
            r.wf(),
            r.spec_width() == new_width,
            r.spec_height() == new_height,
            r@ == nearest_resampled(
                self@,
                self.spec_width(),
                self.spec_height(),
                new_width as nat,
                new_height as nat,
            ),
    {
        let data: Vec<u8> = resample_nearest(&self.data, self.width, self.height, new_width, new_height);
        ColorImage { width: new_width, height: new_height, data }
    }
}

} // verus!
