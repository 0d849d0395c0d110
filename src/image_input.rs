//! Turning an encoded image into the samples of a model's input tensor.
use vstd::prelude::*;
use vstd::arithmetic::div_mod::{lemma_fundamental_div_mod_converse_div, lemma_fundamental_div_mod_converse_mod};
use crate::error::ClassifyError;

verus! {

/// The image as the decoder returned it: width, height and the samples,
/// row-major with each pixel's channels interleaved.
pub uninterp spec fn decoded_rgb(bytes: Seq<u8>) -> Option<(u32, u32, Seq<u8>)>;

pub uninterp spec fn decoded_luma(bytes: Seq<u8>) -> Option<(u32, u32, Seq<u8>)>;

/// The samples of a grid resized with nearest-neighbour sampling.
pub uninterp spec fn nearest_rgb(width: u32, height: u32, samples: Seq<u8>, new_width: u32, new_height: u32) -> Seq<u8>;

pub uninterp spec fn nearest_luma(width: u32, height: u32, samples: Seq<u8>, new_width: u32, new_height: u32) -> Seq<u8>;

/// A decoded image: `channels` samples per pixel, rows top to bottom, pixels
/// left to right.
#[derive(Debug, Clone)]
pub struct PixelGrid {
    pub width: u32,
    pub height: u32,
    pub channels: usize,
    pub samples: Vec<u8>,
}

impl PixelGrid {
    pub open spec fn pixel_count(&self) -> nat {
        self.width as nat * self.height as nat
    }

    pub open spec fn wf(&self) -> bool {
        &&& self.channels >= 1
        &&& self.samples@.len() == self.pixel_count() * self.channels as nat
    }
}

/// The sample interpretation the model expects.
#[derive(Debug, Clone, Copy, PartialEq, Eq, Structural)]
pub enum ColorModel {
    /// One channel, as for digit classification.
    Luma,
    /// Three channels, red, green and blue.
    Rgb,
}

pub open spec fn channel_count(c: ColorModel) -> nat {
    match c {
        ColorModel::Luma => 1,
        ColorModel::Rgb => 3,
    }
}

/// The axis order of the model's input tensor; the batch axis comes first.
#[derive(Debug, Clone, Copy, PartialEq, Eq, Structural)]
pub enum Layout {
    /// Height, width, channel: the order in which a grid holds its samples.
    Nhwc,
    /// Channel, height, width: one plane per channel.
    Nchw,
}

/// The model's fixed input: resolution, color model and axis order.
#[derive(Debug, Clone, Copy)]
pub struct ImageInputSpec {
    pub width: u32,
    pub height: u32,
    pub color: ColorModel,
    pub layout: Layout,
}

impl ImageInputSpec {
    pub open spec fn wf(&self) -> bool {
        &&& self.width > 0
        &&& self.height > 0
        &&& self.width as nat * self.height as nat * 3 <= usize::MAX
    }
}

/// The samples of a grid of `pixels` pixels with `channels` channels, put in
/// the order of `layout`.
pub open spec fn arranged(layout: Layout, pixels: nat, channels: nat, s: Seq<u8>) -> Seq<u8> {
    match layout {
        Layout::Nhwc => s,
        Layout::Nchw => Seq::new(
            pixels * channels,
            |i: int| s[(i % pixels as int) * channels as int + i / pixels as int],
        ),
    }
}

pub open spec fn decoded(color: ColorModel, bytes: Seq<u8>) -> Option<(u32, u32, Seq<u8>)> {
    match color {
        ColorModel::Luma => decoded_luma(bytes),
        ColorModel::Rgb => decoded_rgb(bytes),
    }
}

pub open spec fn resized(color: ColorModel, w: u32, h: u32, s: Seq<u8>, nw: u32, nh: u32) -> Seq<u8> {
    match color {
        ColorModel::Luma => nearest_luma(w, h, s, nw, nh),
        ColorModel::Rgb => nearest_rgb(w, h, s, nw, nh),
    }
}

/// What preparing `bytes` for the model `spec` yields.
pub open spec fn prepared(spec: ImageInputSpec, bytes: Seq<u8>) -> Result<Seq<u8>, ClassifyError> {
    match decoded(spec.color, bytes) {
        None => Err(ClassifyError::InputDecode),
        Some((w, h, s)) => if w == 0 || h == 0 {
            Err(ClassifyError::ShapeMismatch)
        } else {
            Ok(arranged(
                spec.layout,
                spec.width as nat * spec.height as nat,
                channel_count(spec.color),
                resized(spec.color, w, h, s, spec.width, spec.height),
            ))
        },
    }
}

/// Relies on image::load_from_memory to decode the bytes, and on
/// DynamicImage::to_rgb8 for a copy with 8-bit RGB samples, which that
/// conversion allocates at exactly three per pixel.
#[verifier::external_body]
fn decode_rgb(bytes: &[u8]) -> (r: Option<PixelGrid>)
    ensures
        r is Some <==> decoded_rgb(bytes@) is Some,
        r matches Some(g) ==> g.wf() && g.channels == 3
            && decoded_rgb(bytes@) == Some((g.width, g.height, g.samples@)),
{
    match image::load_from_memory(bytes) {
        Ok(img) => {
            let buf = img.to_rgb8();
            Some(PixelGrid { width: buf.width(), height: buf.height(), channels: 3, samples: buf.into_raw() })
        },
        Err(_) => None,
    }
}

/// Relies on image::load_from_memory to decode the bytes, and on
/// DynamicImage::to_luma8 for a copy with one 8-bit sample per pixel.
#[verifier::external_body]
fn decode_luma(bytes: &[u8]) -> (r: Option<PixelGrid>)
    ensures
        r is Some <==> decoded_luma(bytes@) is Some,
        r matches Some(g) ==> g.wf() && g.channels == 1
            && decoded_luma(bytes@) == Some((g.width, g.height, g.samples@)),
{
    match image::load_from_memory(bytes) {
        Ok(img) => {
            let buf = img.to_luma8();
            Some(PixelGrid { width: buf.width(), height: buf.height(), channels: 1, samples: buf.into_raw() })
        },
        Err(_) => None,
    }
}

/// Relies on image::imageops::resize with FilterType::Nearest. The result is
/// allocated at the new size; at an unchanged size it is a copy. The sampling
/// expects images that are not empty.
#[verifier::external_body]
fn resize_rgb(g: &PixelGrid, new_width: u32, new_height: u32) -> (r: PixelGrid)
    requires
        g.wf(),
        g.channels == 3,
        g.width > 0 && g.height > 0,
        new_width > 0 && new_height > 0,
        new_width as nat * new_height as nat * 3 <= usize::MAX,
    ensures
        r.wf(),
        r.width == new_width,
        r.height == new_height,
        r.channels == 3,
        r.samples@ == nearest_rgb(g.width, g.height, g.samples@, new_width, new_height),
        g.width == new_width && g.height == new_height ==> r.samples@ == g.samples@,
{
    let buf = image::RgbImage::from_raw(g.width, g.height, g.samples.clone()).unwrap();
    let out = image::imageops::resize(&buf, new_width, new_height, image::imageops::FilterType::Nearest);
    PixelGrid { width: new_width, height: new_height, channels: 3, samples: out.into_raw() }
}

/// Relies on image::imageops::resize with FilterType::Nearest, on one-channel
/// images.
#[verifier::external_body]
fn resize_luma(g: &PixelGrid, new_width: u32, new_height: u32) -> (r: PixelGrid)
    requires
        g.wf(),
        g.channels == 1,
        g.width > 0 && g.height > 0,
        new_width > 0 && new_height > 0,
        new_width as nat * new_height as nat <= usize::MAX,
    ensures
        r.wf(),
        r.width == new_width,
        r.height == new_height,
        r.channels == 1,
        r.samples@ == nearest_luma(g.width, g.height, g.samples@, new_width, new_height),
        g.width == new_width && g.height == new_height ==> r.samples@ == g.samples@,
{
    let buf = image::GrayImage::from_raw(g.width, g.height, g.samples.clone()).unwrap();
    let out = image::imageops::resize(&buf, new_width, new_height, image::imageops::FilterType::Nearest);
    PixelGrid { width: new_width, height: new_height, channels: 1, samples: out.into_raw() }
}

/// The grid's samples in the axis order `layout`.
pub fn arrange(g: &PixelGrid, layout: Layout) -> (r: Vec<u8>)
    requires
        g.wf(),
    ensures
        r@ == arranged(layout, g.pixel_count(), g.channels as nat, g.samples@),
{
    match layout {
        Layout::Nhwc => g.samples.clone(),
        Layout::Nchw => {
            let c = g.channels;
            let n: usize = g.samples.len() / c;
            proof {
                lemma_fundamental_div_mod_converse_div(g.samples@.len() as int, c as int, g.pixel_count() as int, 0);
            }
            assert(n == g.pixel_count());
            let total: usize = g.samples.len();
            assert(n * c == total) by (nonlinear_arith)
                requires n == g.pixel_count(), total == g.pixel_count() * c;
            let ghost target = arranged(layout, n as nat, c as nat, g.samples@);
            let mut r: Vec<u8> = Vec::new();
            let mut ch: usize = 0;
            while ch < c
                invariant
                    c == g.channels,
                    g.wf(),
                    n == g.pixel_count(),
                    n * c == total,
                    total == g.samples@.len(),
                    target == arranged(layout, n as nat, c as nat, g.samples@),
                    target.len() == n * c,
                    layout == Layout::Nchw,
                    ch <= c,
                    r@.len() == ch * n,
                    forall|i: int| 0 <= i < r@.len() ==> #[trigger] r@[i] == target[i],
                decreases c - ch,
            {
                let mut p: usize = 0;
                while p < n
                    invariant
                        c == g.channels,
                        g.wf(),
                        n == g.pixel_count(),
                        n * c == total,
                        total == g.samples@.len(),
                        target == arranged(layout, n as nat, c as nat, g.samples@),
                        target.len() == n * c,
                        layout == Layout::Nchw,
                        ch < c,
                        p <= n,
                        r@.len() == ch * n + p,
                        forall|i: int| 0 <= i < r@.len() ==> #[trigger] r@[i] == target[i],
                    decreases n - p,
                {
                    assert(p * c + ch < n * c && p * c <= p * c + ch) by (nonlinear_arith)
                        requires p < n, ch < c;
                    assert(ch * n + p < n * c) by (nonlinear_arith)
                        requires p < n, ch < c;
                    let v = g.samples[p * c + ch];
                    proof {
                        let i = (ch * n + p) as int;
                        lemma_fundamental_div_mod_converse_div(i, n as int, ch as int, p as int);
                        lemma_fundamental_div_mod_converse_mod(i, n as int, ch as int, p as int);
                        assert(ch * n + p < n * c) by (nonlinear_arith)
                            requires p < n, ch < c;
                        assert(target[i] == v);
                    }
                    r.push(v);
                    p = p + 1;
                }
                assert((ch + 1) * n == ch * n + n) by (nonlinear_arith);
                ch = ch + 1;
            }
            assert(c * n == n * c) by (nonlinear_arith);
            assert(r@ =~= target);
            r
        },
    }
}

/// Decodes `bytes` as the model's color model, resizes the image to the
/// model's resolution and puts its samples in the model's axis order.
pub fn prepare_image(bytes: &[u8], spec: &ImageInputSpec) -> (r: Result<Vec<u8>, ClassifyError>)
    requires
        spec.wf(),
    ensures
        match r {
            Ok(v) => prepared(*spec, bytes@) == Ok::<Seq<u8>, ClassifyError>(v@),
            Err(e) => prepared(*spec, bytes@) == Err::<Seq<u8>, ClassifyError>(e),
        },
{
    let grid = match spec.color {
        ColorModel::Luma => decode_luma(bytes),
        ColorModel::Rgb => decode_rgb(bytes),
    };
    match grid {
        None => Err(ClassifyError::InputDecode),
        Some(g) => {
            if g.width == 0 || g.height == 0 {
                return Err(ClassifyError::ShapeMismatch);
            }
            assert(spec.width as nat * spec.height as nat <= usize::MAX) by (nonlinear_arith)
                requires spec.width as nat * spec.height as nat * 3 <= usize::MAX;
            let resized = match spec.color {
                ColorModel::Luma => resize_luma(&g, spec.width, spec.height),
                ColorModel::Rgb => resize_rgb(&g, spec.width, spec.height),
            };
            Ok(arrange(&resized, spec.layout))
        },
    }
}

} // verus!
