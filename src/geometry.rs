//! Fitting a captured B,G,R frame to the panel: a centred crop to the
//! panel's aspect ratio, then a resample, optionally in linear light.
//!
//! The crop and the resampling are done by `fast_image_resize`; this module
//! decides when a transform is possible and in which order the steps run.

use fast_image_resize as fir;
use std::num::NonZeroU32;
use vstd::prelude::*;

verus! {

/// How pixels are resampled.
#[derive(Clone, Copy, Debug, PartialEq, Eq, Structural)]
pub enum ResizeAlgorithm {
    /// Nearest neighbour.
    Nearest,
    /// Lanczos convolution with a window of three.
    Lanczos3,
}

/// Why a frame could not be fitted to the panel.
#[derive(Clone, Copy, Debug, PartialEq, Eq, Structural)]
pub enum GeometryError {
    /// The requested panel width or height is zero.
    ZeroDimension,
    /// The requested size is larger than the display chain.
    ExceedsDisplay,
    /// The source has a zero dimension or its buffer is not three bytes per
    /// pixel of its size.
    BadSource,
    /// A side is longer than `MAX_SIDE`.
    TooLarge,
    /// The aspect ratios differ so much that the crop would be empty.
    DegenerateCrop,
}

/// Longest side handled; the crop box, computed in single precision, is
/// exact to well under half a pixel up to this size.
pub const MAX_SIDE: u32 = 16384;

/// The image that `fast_image_resize` produces from the `src_w`×`src_h`
/// B,G,R image `pixels` cropped around its centre to the aspect ratio of
/// `dst_w`×`dst_h` and resampled to that size with `alg`.
pub uninterp spec fn cropped_resize(
    pixels: Seq<u8>,
    src_w: nat,
    src_h: nat,
    dst_w: nat,
    dst_h: nat,
    alg: ResizeAlgorithm,
) -> Seq<u8>;

/// One byte of a colour component taken from sRGB encoding to linear light
/// by `fast_image_resize`'s sRGB mapper.
pub uninterp spec fn srgb_to_linear_byte(c: u8) -> u8;

/// One byte of a colour component taken from linear light back to sRGB
/// encoding by `fast_image_resize`'s sRGB mapper.
pub uninterp spec fn linear_to_srgb_byte(c: u8) -> u8;

pub open spec fn linearized(s: Seq<u8>) -> Seq<u8> {
    s.map_values(|c: u8| srgb_to_linear_byte(c))
}

pub open spec fn delinearized(s: Seq<u8>) -> Seq<u8> {
    s.map_values(|c: u8| linear_to_srgb_byte(c))
}

/// Sizes that `fast_image_resize` accepts for a crop and resample.
pub open spec fn resize_admissible(len: nat, src_w: nat, src_h: nat, dst_w: nat, dst_h: nat) -> bool {
    &&& 0 < src_w <= MAX_SIDE && 0 < src_h <= MAX_SIDE
    &&& 0 < dst_w <= MAX_SIDE && 0 < dst_h <= MAX_SIDE
    &&& len == 3 * (src_w * src_h)
    &&& dst_w * src_h >= dst_h && dst_h * src_w >= dst_w
}

/// Relies on `fast_image_resize`'s `Resizer::resize`, run on the source view
/// after `set_crop_box_to_fit_dst_size` with centring: the destination is a
/// fresh `dst_w`×`dst_h` three-byte image, and the result depends on the
/// inputs alone. The sizes admitted keep `NonZeroU32::new`, `from_vec_u8`,
/// the crop box (whose sides round to at least one pixel and stay inside
/// the image) and `Image::new` from failing or overflowing.
#[verifier::external_body]
fn resize_cropped(
    pixels: Vec<u8>,
    src_w: u32,
    src_h: u32,
    dst_w: u32,
    dst_h: u32,
    alg: ResizeAlgorithm,
) -> (r: Vec<u8>)
    requires
        resize_admissible(pixels@.len(), src_w as nat, src_h as nat, dst_w as nat, dst_h as nat),
    ensures
        r@.len() == 3 * (dst_w * dst_h),
        r@ == cropped_resize(pixels@, src_w as nat, src_h as nat, dst_w as nat, dst_h as nat, alg),
{
    let (dw, dh) = (NonZeroU32::new(dst_w).unwrap(), NonZeroU32::new(dst_h).unwrap());
    let (sw, sh) = (NonZeroU32::new(src_w).unwrap(), NonZeroU32::new(src_h).unwrap());
    let src = fir::Image::from_vec_u8(sw, sh, pixels, fir::PixelType::U8x3).unwrap();
    let mut view = src.view();
    view.set_crop_box_to_fit_dst_size(dw, dh, None);
    let mut dst = fir::Image::new(dw, dh, fir::PixelType::U8x3);
    let alg = match alg {
        ResizeAlgorithm::Nearest => fir::ResizeAlg::Nearest,
        ResizeAlgorithm::Lanczos3 => fir::ResizeAlg::Convolution(fir::FilterType::Lanczos3),
    };
    fir::Resizer::new(alg).resize(&view, &mut dst.view_mut()).unwrap();
    dst.into_vec()
}

/// Relies on `fast_image_resize`'s `PixelComponentMapper::forward_map_inplace`
/// of `create_srgb_mapper()`: each byte of a three-byte image goes through
/// one lookup table from sRGB to linear light.
#[verifier::external_body]
fn srgb_forward(pixels: Vec<u8>, width: u32, height: u32) -> (r: Vec<u8>)
    requires
        0 < width <= MAX_SIDE && 0 < height <= MAX_SIDE,
        pixels@.len() == 3 * (width * height),
    ensures
        r@ == pixels@.map_values(|c: u8| srgb_to_linear_byte(c)),
{
    let (w, h) = (NonZeroU32::new(width).unwrap(), NonZeroU32::new(height).unwrap());
    let mut img = fir::Image::from_vec_u8(w, h, pixels, fir::PixelType::U8x3).unwrap();
    fir::create_srgb_mapper().forward_map_inplace(&mut img.view_mut()).unwrap();
    img.into_vec()
}

/// Relies on `fast_image_resize`'s `PixelComponentMapper::backward_map_inplace`
/// of `create_srgb_mapper()`: each byte of a three-byte image goes through
/// one lookup table from linear light back to sRGB.
#[verifier::external_body]
fn srgb_backward(pixels: Vec<u8>, width: u32, height: u32) -> (r: Vec<u8>)
    requires
        0 < width <= MAX_SIDE && 0 < height <= MAX_SIDE,
        pixels@.len() == 3 * (width * height),
    ensures
        r@ == pixels@.map_values(|c: u8| linear_to_srgb_byte(c)),
{
    let (w, h) = (NonZeroU32::new(width).unwrap(), NonZeroU32::new(height).unwrap());
    let mut img = fir::Image::from_vec_u8(w, h, pixels, fir::PixelType::U8x3).unwrap();
    fir::create_srgb_mapper().backward_map_inplace(&mut img.view_mut()).unwrap();
    img.into_vec()
}

/// The first check that a transform of `len` source bytes fails, if any.
pub open spec fn transform_error(
    len: nat,
    src_w: nat,
    src_h: nat,
    dst_w: nat,
    dst_h: nat,
    max_w: nat,
    max_h: nat,
) -> Option<GeometryError> {
    if dst_w == 0 || dst_h == 0 {
        Some(GeometryError::ZeroDimension)
    } else if dst_w > max_w || dst_h > max_h {
        Some(GeometryError::ExceedsDisplay)
    } else if src_w == 0 || src_h == 0 {
        Some(GeometryError::BadSource)
    } else if src_w > MAX_SIDE || src_h > MAX_SIDE || dst_w > MAX_SIDE || dst_h > MAX_SIDE {
        Some(GeometryError::TooLarge)
    } else if len != 3 * (src_w * src_h) {
        Some(GeometryError::BadSource)
    } else if dst_w * src_h < dst_h || dst_h * src_w < dst_w {
        Some(GeometryError::DegenerateCrop)
    } else {
        None
    }
}

/// The panel image made from `pixels`.
pub open spec fn transformed(
    pixels: Seq<u8>,
    src_w: nat,
    src_h: nat,
    dst_w: nat,
    dst_h: nat,
    alg: ResizeAlgorithm,
    linear_light: bool,
) -> Seq<u8> {
    if linear_light {
        delinearized(cropped_resize(linearized(pixels), src_w, src_h, dst_w, dst_h, alg))
    } else {
        cropped_resize(pixels, src_w, src_h, dst_w, dst_h, alg)
    }
}

proof fn lemma_mul_u32_fits(a: u32, b: u32)
    ensures
        (a as int) * (b as int) <= u64::MAX,
{
    assert((a as int) * (b as int) <= 0xFFFF_FFFFint * 0xFFFF_FFFFint) by (nonlinear_arith)
        requires
            a <= 0xFFFF_FFFFint,
            b <= 0xFFFF_FFFFint,
            0 <= a,
            0 <= b,
    ;
}

/// Checks the sizes of a transform, in the order of `transform_error`.
fn check_sizes(
    len: usize,
    src_w: u32,
    src_h: u32,
    dst_w: u32,
    dst_h: u32,
    max_w: u32,
    max_h: u32,
) -> (r: Option<GeometryError>)
    ensures
        r == transform_error(
            len as nat,
            src_w as nat,
            src_h as nat,
            dst_w as nat,
            dst_h as nat,
            max_w as nat,
            max_h as nat,
        ),
{
    if dst_w == 0 || dst_h == 0 {
        return Some(GeometryError::ZeroDimension);
    }
    if dst_w > max_w || dst_h > max_h {
        return Some(GeometryError::ExceedsDisplay);
    }
    if src_w == 0 || src_h == 0 {
        return Some(GeometryError::BadSource);
    }
    proof {
        lemma_mul_u32_fits(dst_w, src_h);
        lemma_mul_u32_fits(dst_h, src_w);
    }
    if src_w > MAX_SIDE || src_h > MAX_SIDE || dst_w > MAX_SIDE || dst_h > MAX_SIDE {
        return Some(GeometryError::TooLarge);
    }
    proof {
        assert((src_w as int) * (src_h as int) <= 16384 * 16384) by (nonlinear_arith)
            requires
                0 <= src_w <= 16384,
                0 <= src_h <= 16384,
        ;
    }
    if len as u64 != 3 * (src_w as u64 * src_h as u64) {
        return Some(GeometryError::BadSource);
    }
    if (dst_w as u64) * (src_h as u64) < dst_h as u64 || (dst_h as u64) * (src_w as u64)
        < dst_w as u64 {
        return Some(GeometryError::DegenerateCrop);
    }
    None
}

/// Crops the `src_w`×`src_h` image `pixels` around its centre to the aspect
/// ratio of `dst_w`×`dst_h` and resamples it to that size.
pub fn resize_image_with_cropping(
    pixels: Vec<u8>,
    src_w: u32,
    src_h: u32,
    dst_w: u32,
    dst_h: u32,
    alg: ResizeAlgorithm,
) -> (r: Result<Vec<u8>, GeometryError>)
    ensures
        ({
            let e = transform_error(
                pixels@.len(),
                src_w as nat,
                src_h as nat,
                dst_w as nat,
                dst_h as nat,
                dst_w as nat,
                dst_h as nat,
            );
            &&& e is Some ==> r == Err::<Vec<u8>, GeometryError>(e->Some_0)
            &&& e is None ==> r is Ok && r->Ok_0@ == cropped_resize(
                pixels@,
                src_w as nat,
                src_h as nat,
                dst_w as nat,
                dst_h as nat,
                alg,
            ) && r->Ok_0@.len() == 3 * (dst_w * dst_h)
        }),
{
    match check_sizes(pixels.len(), src_w, src_h, dst_w, dst_h, dst_w, dst_h) {
        Some(e) => Err(e),
        None => Ok(resize_cropped(pixels, src_w, src_h, dst_w, dst_h, alg)),
    }
}

/// Fits a captured frame to a `dst_w`×`dst_h` panel on a display chain of
/// at most `max_w`×`max_h` pixels. With `linear_light`, the frame is taken
/// from sRGB encoding to linear light before the resample and back after.
pub fn transform_frame(
    pixels: Vec<u8>,
    src_w: u32,
    src_h: u32,
    dst_w: u32,
    dst_h: u32,
    max_w: u32,
    max_h: u32,
    alg: ResizeAlgorithm,
    linear_light: bool,
) -> (r: Result<Vec<u8>, GeometryError>)
    ensures
        ({
            let e = transform_error(
                pixels@.len(),
                src_w as nat,
                src_h as nat,
                dst_w as nat,
                dst_h as nat,
                max_w as nat,
                max_h as nat,
            );
            &&& e is Some ==> r == Err::<Vec<u8>, GeometryError>(e->Some_0)
            &&& e is None ==> r is Ok && r->Ok_0@ == transformed(
                pixels@,
                src_w as nat,
                src_h as nat,
                dst_w as nat,
                dst_h as nat,
                alg,
                linear_light,
            ) && r->Ok_0@.len() == 3 * (dst_w * dst_h)
        }),
{
    match check_sizes(pixels.len(), src_w, src_h, dst_w, dst_h, max_w, max_h) {
        Some(e) => Err(e),
        None => {
            if linear_light {
                let lin = srgb_forward(pixels, src_w, src_h);
                let resized = resize_cropped(lin, src_w, src_h, dst_w, dst_h, alg);
                Ok(srgb_backward(resized, dst_w, dst_h))
            } else {
                Ok(resize_cropped(pixels, src_w, src_h, dst_w, dst_h, alg))
            }
        },
    }
}

} // verus!
