use vstd::prelude::*;
use vstd::math::min;
use crate::codec::DecodeError;
use crate::codec::sample_code;
use crate::ops::{Contrast, Crop, Filter, Resize, ResizeType, SampleFilter, Spec, SpecData,
    Watermark};

verus! {

/// A decoded picture: RGBA channel data, four bytes per pixel, rows first.
#[derive(Clone, Debug)]
pub struct Image {
    pub width: u32,
    pub height: u32,
    pub pixels: Vec<u8>,
}

/// An operation violated a structural constraint at apply time: a crop
/// rectangle that is empty or leaves the image, or a resize to an empty
/// target.
#[derive(Clone, Copy, Debug, PartialEq, Eq, Structural)]
pub enum StructuralError {
    BadCrop,
    EmptyResize,
}

/// The output container could not be written for this pixel buffer.
#[derive(Clone, Copy, Debug, PartialEq, Eq, Structural)]
pub struct EncodeError;

/// The output container an engine writes on finalizing.
#[derive(Clone, Copy, Debug, PartialEq, Eq, Structural)]
pub enum OutputFormat {
    Jpeg(u8),
    Png,
}

/// A code that tells the output formats apart in contracts.
pub open spec fn fmt_code(f: OutputFormat) -> int {
    match f {
        OutputFormat::Jpeg(q) => q as int,
        OutputFormat::Png => 256,
    }
}

impl Image {
    /// The buffer holds exactly four bytes for every pixel of the declared
    /// dimensions.
    pub open spec fn wf(&self) -> bool {
        self.pixels@.len() == 4 * self.width * self.height
    }

    /// The mathematical content of the picture: width, height, channel data.
    pub open spec fn model(&self) -> (int, int, Seq<u8>) {
        (self.width as int, self.height as int, self.pixels@)
    }

    /// Builds a picture from raw RGBA bytes, refusing a buffer whose length
    /// does not match the dimensions.
    pub fn from_raw(width: u32, height: u32, pixels: Vec<u8>) -> (r: Option<Image>)
        ensures
            r is Some ==> r.unwrap() == (Image { width, height, pixels }) && r.unwrap().wf(),
            r is None ==> pixels@.len() != 4 * width * height,
    {
        let len: usize = pixels.len();
        proof {
            assert((width as int) * (height as int) < 0x1_0000_0000_0000_0000int
                && (width as int) * (height as int) >= 0) by (nonlinear_arith)
                requires
                    width <= 0xffff_ffffu32,
                    height <= 0xffff_ffffu32,
            ;
        }
        let a: u64 = (width as u64) * (height as u64);
        proof {
            assert(4 * (a as int) == 4 * width * height) by (nonlinear_arith)
                requires
                    a == (width as int) * (height as int),
            ;
        }
        if a <= u64::MAX / 4 && (len as u64) == 4 * a {
            Some(Image { width, height, pixels })
        } else {
            proof {
                if a > u64::MAX / 4 {
                    assert(4 * (a as int) > u64::MAX);
                }
            }
            None
        }
    }
}

/// The pixels of the rectangle `[x1, x2) x [y1, y2)` of a `w`-wide picture.
pub open spec fn crop_px(px: Seq<u8>, w: int, x1: int, y1: int, x2: int, y2: int) -> Seq<u8> {
    Seq::new((4 * (x2 - x1) * (y2 - y1)) as nat, |i: int|
        {
            let p = i / 4;
            let c = i % 4;
            let row = p / (x2 - x1);
            let col = p % (x2 - x1);
            px[4 * ((y1 + row) * w + (x1 + col)) + c]
        },
    )
}

/// A picture whose every pixel has equal color channels: what grayscale
/// leaves behind.
pub open spec fn gray_channels(px: Seq<u8>) -> bool {
    forall|p: int|
        0 <= p && 4 * p + 3 < px.len() ==> #[trigger] px[4 * p] == px[4 * p + 1] && px[4 * p + 1]
            == px[4 * p + 2]
}

/// Operations of which the contracts here show that they keep a gray
/// picture gray: the empty step, grayscale itself, the unspecified filter,
/// and normal resampling, which weighs each channel identically.
pub open spec fn keeps_gray(s: Spec) -> bool {
    match s.data {
        None => true,
        Some(SpecData::Gray) => true,
        Some(SpecData::Filter(f)) => f == Filter::Unspecified,
        Some(SpecData::Resize(r)) => r.rtype == ResizeType::Normal,
        _ => false,
    }
}

/// Whether byte `i` of a `w`-wide picture lies in a pixel the watermark
/// placed at `(x, y)` with size `ww x wh` covers.
pub open spec fn in_overlay(i: int, w: int, ww: int, wh: int, x: int, y: int) -> bool {
    let p = i / 4;
    let row = p / w;
    let col = p % w;
    x <= col < x + ww && y <= row < y + wh
}

/// A picture turned gray the way photon does it: every color channel of a
/// pixel becomes the average of its three color channels, capped at 255;
/// alpha is kept.
pub open spec fn gray_px(px: Seq<u8>) -> Seq<u8> {
    Seq::new(px.len(), |i: int|
        {
            let p = i / 4;
            let c = i % 4;
            if c == 3 {
                px[i]
            } else {
                let base = 4 * p;
                let avg = (px[base] + px[base + 1] + px[base + 2]) / 3;
                if avg >= 255 {
                    255u8
                } else {
                    avg as u8
                }
            }
        },
    )
}

/// What photon's contrast adjustment returns for a buffer and amount.
pub uninterp spec fn contrast_of(px: Seq<u8>, c: int) -> Seq<u8>;

/// A `w`-wide picture mirrored along the vertical axis: each row reversed.
pub open spec fn fliph_px(px: Seq<u8>, w: int, h: int) -> Seq<u8> {
    Seq::new(px.len(), |i: int|
        {
            let p = i / 4;
            let c = i % 4;
            let row = p / w;
            let col = p % w;
            px[4 * (row * w + (w - 1 - col)) + c]
        },
    )
}

/// A `w`-wide picture mirrored along the horizontal axis: the rows reversed.
pub open spec fn flipv_px(px: Seq<u8>, w: int, h: int) -> Seq<u8> {
    Seq::new(px.len(), |i: int|
        {
            let p = i / 4;
            let c = i % 4;
            let row = p / w;
            let col = p % w;
            px[4 * ((h - 1 - row) * w + col) + c]
        },
    )
}

/// What photon's named color filter returns for a buffer.
pub uninterp spec fn filter_px(px: Seq<u8>, name: Seq<char>) -> Seq<u8>;

/// What photon's normal resampling returns: `k` is the kernel's wire code.
pub uninterp spec fn resize_of(px: Seq<u8>, w: int, h: int, tw: int, th: int, k: int) -> Seq<u8>;

/// What photon's seam-carving resize returns for a buffer and target.
pub uninterp spec fn seam_of(px: Seq<u8>, w: int, h: int, tw: int, th: int) -> Seq<u8>;

/// What photon's watermark compositing returns.
pub uninterp spec fn watermark_of(
    px: Seq<u8>,
    w: int,
    h: int,
    wpx: Seq<u8>,
    ww: int,
    wh: int,
    x: int,
    y: int,
) -> Seq<u8>;

/// What the output encoder returns for a pixel buffer and format code.
pub uninterp spec fn encoded_of(px: Seq<u8>, w: int, h: int, f: int) -> Seq<u8>;

/// Whether the output encoder accepts a pixel buffer of these dimensions in
/// this format.
pub uninterp spec fn encode_ok(px: Seq<u8>, w: int, h: int, f: int) -> bool;

/// Whether a byte string is a recognized picture container.
pub uninterp spec fn decode_ok(b: Seq<u8>) -> bool;

/// The picture a recognized container decodes to: width, height, RGBA bytes.
pub uninterp spec fn decoded_of(b: Seq<u8>) -> (int, int, Seq<u8>);

/// Relies on photon's `native::open_image_from_bytes`: whether the bytes are
/// a recognized container, and what picture they decode to, depend on the
/// bytes alone; a decoded picture's RGBA8 buffer holds four bytes per pixel
/// of the reported dimensions.
#[verifier::external_body]
fn photon_decode(data: &Vec<u8>) -> (r: Result<Image, DecodeError>)
    ensures
        r is Ok <==> decode_ok(data@),
        r is Ok ==> r->Ok_0.wf() && r->Ok_0.model() == decoded_of(data@),
        r is Err ==> r->Err_0 == DecodeError::Picture,
{
    match photon_rs::native::open_image_from_bytes(data) {
        Ok(img) => {
            let width = img.get_width();
            let height = img.get_height();
            Ok(Image { width, height, pixels: img.get_raw_pixels() })
        },
        Err(_) => Err(DecodeError::Picture),
    }
}

/// Relies on photon's `monochrome::grayscale`: it sets each pixel's three
/// color channels to their capped average and leaves alpha alone.
#[verifier::external_body]
fn photon_gray(img: &Image) -> (r: Vec<u8>)
    requires
        img.wf(),
    ensures
        r@ == gray_px(img.pixels@),
        r@.len() == img.pixels@.len(),
{
    let mut p = photon_rs::PhotonImage::new(img.pixels.clone(), img.width, img.height);
    photon_rs::monochrome::grayscale(&mut p);
    p.get_raw_pixels()
}

/// Relies on photon's `effects::adjust_contrast`: a per-pixel lookup that
/// depends on the pixels and the amount alone and keeps the buffer length.
#[verifier::external_body]
fn photon_contrast(img: &Image, c: i32) -> (r: Vec<u8>)
    requires
        img.wf(),
    ensures
        r@ == contrast_of(img.pixels@, c as int),
        r@.len() == img.pixels@.len(),
{
    let mut p = photon_rs::PhotonImage::new(img.pixels.clone(), img.width, img.height);
    photon_rs::effects::adjust_contrast(&mut p, c as _);
    p.get_raw_pixels()
}

/// Relies on photon's `transform::fliph`: it writes source pixel `(x, y)` to
/// `(w - 1 - x, y)`, which is exactly the reversal of each row.
#[verifier::external_body]
fn photon_fliph(img: &Image) -> (r: Vec<u8>)
    requires
        img.wf(),
    ensures
        r@ == fliph_px(img.pixels@, img.width as int, img.height as int),
        r@.len() == img.pixels@.len(),
{
    let mut p = photon_rs::PhotonImage::new(img.pixels.clone(), img.width, img.height);
    photon_rs::transform::fliph(&mut p);
    p.get_raw_pixels()
}

/// Relies on photon's `transform::flipv`: it writes source pixel `(x, y)` to
/// `(x, h - 1 - y)`, which is exactly the reversal of the row order.
#[verifier::external_body]
fn photon_flipv(img: &Image) -> (r: Vec<u8>)
    requires
        img.wf(),
    ensures
        r@ == flipv_px(img.pixels@, img.width as int, img.height as int),
        r@.len() == img.pixels@.len(),
{
    let mut p = photon_rs::PhotonImage::new(img.pixels.clone(), img.width, img.height);
    photon_rs::transform::flipv(&mut p);
    p.get_raw_pixels()
}

/// Relies on photon's `filters::filter`: a per-pixel color mix chosen by
/// name, depending on the pixels and the name alone and keeping the buffer
/// length. The catalog names never panic.
#[verifier::external_body]
fn photon_filter(img: &Image, name: &str) -> (r: Vec<u8>)
    requires
        img.wf(),
        name@ == "oceanic"@ || name@ == "islands"@ || name@ == "marine"@,
    ensures
        r@ == filter_px(img.pixels@, name@),
        r@.len() == img.pixels@.len(),
{
    let mut p = photon_rs::PhotonImage::new(img.pixels.clone(), img.width, img.height);
    photon_rs::filters::filter(&mut p, name);
    p.get_raw_pixels()
}

/// Relies on photon's `transform::resize` (image's resampler): the result
/// has exactly the target dimensions and is a function of the buffer, the
/// target and the kernel. Each channel is resampled with the same kernel
/// over the same source pixels, so a picture with equal channels everywhere
/// keeps them equal.
#[verifier::external_body]
fn photon_resize(img: &Image, w: u32, h: u32, k: SampleFilter) -> (r: Image)
    requires
        img.wf(),
        w > 0,
        h > 0,
    ensures
        r.wf(),
        r.width == w,
        r.height == h,
        gray_channels(img.pixels@) ==> gray_channels(r.pixels@),
        r.pixels@ == resize_of(
            img.pixels@,
            img.width as int,
            img.height as int,
            w as int,
            h as int,
            sample_code(k) as int,
        ),
{
    let f = match k {
        SampleFilter::Undefined => photon_rs::transform::SamplingFilter::Nearest,
        SampleFilter::Nearest => photon_rs::transform::SamplingFilter::Nearest,
        SampleFilter::Triangle => photon_rs::transform::SamplingFilter::Triangle,
        SampleFilter::CatmullRom => photon_rs::transform::SamplingFilter::CatmullRom,
        SampleFilter::Gaussian => photon_rs::transform::SamplingFilter::Gaussian,
        SampleFilter::Lanczos3 => photon_rs::transform::SamplingFilter::Lanczos3,
    };
    let p = photon_rs::PhotonImage::new(img.pixels.clone(), img.width, img.height);
    let out = photon_rs::transform::resize(&p, w, h, f);
    Image { width: out.get_width(), height: out.get_height(), pixels: out.get_raw_pixels() }
}

/// Relies on photon's `transform::seam_carve`: seams are only removed, never
/// added, so the result has the target dimensions clamped to the current
/// ones, and depends on the buffer and the target alone. The seam search
/// walks the picture's pixels, so both the picture and the target must be
/// nonempty.
#[verifier::external_body]
fn photon_seam_carve(img: &Image, w: u32, h: u32) -> (r: Image)
    requires
        img.wf(),
        img.width > 0,
        img.height > 0,
        w > 0,
        h > 0,
    ensures
        r.wf(),
        r.width as int == min(img.width as int, w as int),
        r.height as int == min(img.height as int, h as int),
        r.pixels@ == seam_of(
            img.pixels@,
            img.width as int,
            img.height as int,
            w as int,
            h as int,
        ),
{
    let p = photon_rs::PhotonImage::new(img.pixels.clone(), img.width, img.height);
    let out = photon_rs::transform::seam_carve(&p, w, h);
    Image { width: out.get_width(), height: out.get_height(), pixels: out.get_raw_pixels() }
}

/// Relies on photon's `multiple::watermark` (image's `imageops::overlay`):
/// the overlay is clipped to the picture, blends only the covered pixels, and
/// depends on the two buffers and the offset alone. Dimensions are kept.
#[verifier::external_body]
fn photon_watermark(img: &Image, wm: &Image, x: u32, y: u32) -> (r: Vec<u8>)
    requires
        img.wf(),
        wm.wf(),
    ensures
        r@ == watermark_of(
            img.pixels@,
            img.width as int,
            img.height as int,
            wm.pixels@,
            wm.width as int,
            wm.height as int,
            x as int,
            y as int,
        ),
        r@.len() == img.pixels@.len(),
        forall|i: int|
            0 <= i < r@.len() && !in_overlay(
                i,
                img.width as int,
                wm.width as int,
                wm.height as int,
                x as int,
                y as int,
            ) ==> r@[i] == img.pixels@[i],
{
    let mut p = photon_rs::PhotonImage::new(img.pixels.clone(), img.width, img.height);
    let w = photon_rs::PhotonImage::new(wm.pixels.clone(), wm.width, wm.height);
    photon_rs::multiple::watermark(&mut p, &w, x as i64, y as i64);
    p.get_raw_pixels()
}

/// Relies on image's encoders via `DynamicImage::write_to`: whether a pixel
/// buffer can be written in a format, and the container bytes that come out,
/// are functions of the pixels, the dimensions and the format alone.
#[verifier::external_body]
fn image_encode(img: &Image, format: &OutputFormat) -> (r: Result<Vec<u8>, EncodeError>)
    requires
        img.wf(),
    ensures
        r is Ok <==> encode_ok(
            img.pixels@,
            img.width as int,
            img.height as int,
            fmt_code(*format),
        ),
        r is Ok ==> r->Ok_0@ == encoded_of(
            img.pixels@,
            img.width as int,
            img.height as int,
            fmt_code(*format),
        ),
{
    let fmt = match format {
        OutputFormat::Jpeg(q) => image::ImageOutputFormat::Jpeg(*q),
        OutputFormat::Png => image::ImageOutputFormat::Png,
    };
    let buf = match image::ImageBuffer::from_vec(img.width, img.height, img.pixels.clone()) {
        Some(b) => b,
        None => return Err(EncodeError),
    };
    let dynimage = image::DynamicImage::ImageRgba8(buf);
    let mut cursor = std::io::Cursor::new(Vec::new());
    match dynimage.write_to(&mut cursor, fmt) {
        Ok(()) => Ok(cursor.into_inner()),
        Err(_) => Err(EncodeError),
    }
}

/// What one operation does to a picture model, with the watermark asset `wm`
/// at hand; `None` is a structural failure.
pub open spec fn step(
    m: (int, int, Seq<u8>),
    wm: (int, int, Seq<u8>),
    s: Spec,
) -> Option<(int, int, Seq<u8>)> {
    match s.data {
        None => Some(m),
        Some(SpecData::Crop(c)) => {
            if c.x1 < c.x2 && c.y1 < c.y2 && c.x2 <= m.0 && c.y2 <= m.1 {
                Some((
                    c.x2 - c.x1,
                    c.y2 - c.y1,
                    crop_px(m.2, m.0, c.x1 as int, c.y1 as int, c.x2 as int, c.y2 as int),
                ))
            } else {
                None
            }
        },
        Some(SpecData::Contrast(c)) => Some((m.0, m.1, contrast_of(m.2, c.contrast as int))),
        Some(SpecData::Gray) => Some((m.0, m.1, gray_px(m.2))),
        Some(SpecData::Fliph) => Some((m.0, m.1, fliph_px(m.2, m.0, m.1))),
        Some(SpecData::Flipv) => Some((m.0, m.1, flipv_px(m.2, m.0, m.1))),
        Some(SpecData::Filter(f)) => {
            match f {
                Filter::Unspecified => Some(m),
                Filter::Oceanic => Some((m.0, m.1, filter_px(m.2, "oceanic"@))),
                Filter::Islands => Some((m.0, m.1, filter_px(m.2, "islands"@))),
                Filter::Marine => Some((m.0, m.1, filter_px(m.2, "marine"@))),
            }
        },
        Some(SpecData::Resize(r)) => {
            if r.width > 0 && r.height > 0 {
                match r.rtype {
                    ResizeType::Normal => Some((
                        r.width as int,
                        r.height as int,
                        resize_of(
                            m.2,
                            m.0,
                            m.1,
                            r.width as int,
                            r.height as int,
                            sample_code(r.filter) as int,
                        ),
                    )),
                    ResizeType::SeamCarve => {
                        if m.0 > 0 && m.1 > 0 {
                            Some((
                                min(m.0, r.width as int),
                                min(m.1, r.height as int),
                                seam_of(m.2, m.0, m.1, r.width as int, r.height as int),
                            ))
                        } else {
                            // A degenerate picture has no seams to carve:
                            // the clamped dimensions keep a zero, so the
                            // only buffer of the right length is empty.
                            Some((
                                min(m.0, r.width as int),
                                min(m.1, r.height as int),
                                Seq::empty(),
                            ))
                        }
                    },
                }
            } else {
                None
            }
        },
        Some(SpecData::Watermark(w)) => Some((
            m.0,
            m.1,
            watermark_of(m.2, m.0, m.1, wm.2, wm.0, wm.1, w.x as int, w.y as int),
        )),
    }
}

/// What a whole pipeline does to a picture model: the operations in order,
/// each seeing the previous one's output; a structural failure anywhere fails
/// the pipeline.
pub open spec fn apply_ops(
    m: (int, int, Seq<u8>),
    wm: (int, int, Seq<u8>),
    ops: Seq<Spec>,
) -> Option<(int, int, Seq<u8>)>
    decreases ops.len(),
{
    if ops.len() == 0 {
        Some(m)
    } else {
        match step(m, wm, ops[0]) {
            None => None,
            Some(m2) => apply_ops(m2, wm, ops.drop_first()),
        }
    }
}

/// The transform engine: one request's picture, plus the shared read-only
/// watermark asset it was constructed with. Finalizing consumes the engine,
/// so no operation can follow it.
#[derive(Debug)]
pub struct Photon {
    pub img: Image,
    pub watermark: Image,
}

impl Photon {
    /// Both the held picture and the watermark asset are well formed.
    pub open spec fn wf(&self) -> bool {
        self.img.wf() && self.watermark.wf()
    }

    /// The model of the held picture.
    pub open spec fn model(&self) -> (int, int, Seq<u8>) {
        self.img.model()
    }

    /// The model of the watermark asset.
    pub open spec fn wm_model(&self) -> (int, int, Seq<u8>) {
        self.watermark.model()
    }

    /// Starts an engine over an already decoded picture.
    pub fn new(img: Image, watermark: Image) -> (r: Photon)
        requires
            img.wf(),
            watermark.wf(),
        ensures
            r.wf(),
            r.img == img,
            r.watermark == watermark,
    {
        Photon { img, watermark }
    }

    /// Decodes raw container bytes and starts an engine over the result:
    /// succeeds exactly when the bytes are a recognized picture container,
    /// and then holds exactly the picture they decode to.
    pub fn try_from_bytes(data: &Vec<u8>, watermark: Image) -> (r: Result<Photon, DecodeError>)
        requires
            watermark.wf(),
        ensures
            r is Ok <==> decode_ok(data@),
            r is Ok ==> r->Ok_0.wf() && r->Ok_0.watermark == watermark && r->Ok_0.img.model()
                == decoded_of(data@),
            r is Err ==> r->Err_0 == DecodeError::Picture,
    {
        match photon_decode(data) {
            Ok(img) => Ok(Photon { img, watermark }),
            Err(e) => Err(e),
        }
    }

    /// Replaces the picture with the crop rectangle `[x1, x2) x [y1, y2)`.
    /// Fails, changing nothing, exactly when the rectangle is empty or leaves
    /// the picture; the requested geometry is never clamped.
    pub fn transform_crop(&mut self, op: &Crop) -> (r: Result<(), StructuralError>)
        requires
            old(self).wf(),
        ensures
            final(self).wf(),
            final(self).watermark == old(self).watermark,
            r is Ok <==> op.x1 < op.x2 && op.y1 < op.y2 && op.x2 <= old(self).img.width
                && op.y2 <= old(self).img.height,
            r is Ok ==> Some(final(self).model()) == step(
                old(self).model(),
                old(self).wm_model(),
                Spec { data: Some(SpecData::Crop(*op)) },
            ),
            r is Err ==> *final(self) == *old(self),
    {
        if !(op.x1 < op.x2 && op.y1 < op.y2 && op.x2 <= self.img.width
            && op.y2 <= self.img.height) {
            return Err(StructuralError::BadCrop);
        }
        let cw: u32 = op.x2 - op.x1;
        let ch: u32 = op.y2 - op.y1;
        let w: usize = self.img.width as usize;
        let mut out: Vec<u8> = Vec::new();
        let ghost target = crop_px(
            self.img.pixels@,
            self.img.width as int,
            op.x1 as int,
            op.y1 as int,
            op.x2 as int,
            op.y2 as int,
        );
        proof {
            assert(target.len() == 4 * cw * ch) by (nonlinear_arith)
                requires
                    target.len() == 4 * (op.x2 - op.x1) * (op.y2 - op.y1),
                    cw == op.x2 - op.x1,
                    ch == op.y2 - op.y1,
            ;
        }
        let plen: usize = self.img.pixels.len();
        let mut y: u32 = op.y1;
        while y < op.y2
            invariant
                old(self).wf(),
                self.img == old(self).img,
                op.x1 < op.x2 <= self.img.width,
                op.y1 <= y <= op.y2,
                op.y2 <= self.img.height,
                cw == op.x2 - op.x1,
                ch == op.y2 - op.y1,
                w == self.img.width,
                target == crop_px(
                    self.img.pixels@,
                    self.img.width as int,
                    op.x1 as int,
                    op.y1 as int,
                    op.x2 as int,
                    op.y2 as int,
                ),
                target.len() == 4 * cw * ch,
                plen == self.img.pixels@.len(),
                out@.len() == 4 * (cw * (y - op.y1)),
                out@ == target.take(out@.len() as int),
            decreases op.y2 - y,
        {
            let mut x: u32 = op.x1;
            proof {
                assert(4 * (cw * (y - op.y1) + (x - op.x1)) == 4 * (cw * (y - op.y1)));
            }
            while x < op.x2
                invariant
                    old(self).wf(),
                    self.img == old(self).img,
                    op.x1 <= x <= op.x2,
                    op.x1 < op.x2 <= self.img.width,
                    op.y1 <= y < op.y2,
                    op.y2 <= self.img.height,
                    cw == op.x2 - op.x1,
                    ch == op.y2 - op.y1,
                    w == self.img.width,
                    target == crop_px(
                        self.img.pixels@,
                        self.img.width as int,
                        op.x1 as int,
                        op.y1 as int,
                        op.x2 as int,
                        op.y2 as int,
                    ),
                    target.len() == 4 * cw * ch,
                    plen == self.img.pixels@.len(),
                    out@.len() == 4 * (cw * (y - op.y1) + (x - op.x1)),
                    out@ == target.take(out@.len() as int),
                decreases op.x2 - x,
            {
                proof {
                    lemma_src_index_bound(
                        self.img.width as int,
                        self.img.height as int,
                        x as int,
                        y as int,
                    );
                }
                proof {
                    assert(4 * ((y as int) * (w as int) + (x as int)) + 4 <= plen);
                }
                let base: usize = 4 * ((y as usize) * w + (x as usize));
                let mut c: usize = 0;
                while c < 4
                    invariant
                        old(self).wf(),
                        self.img == old(self).img,
                        0 <= c <= 4,
                        op.x1 <= x < op.x2 <= self.img.width,
                        op.y1 <= y < op.y2 <= self.img.height,
                        cw == op.x2 - op.x1,
                        ch == op.y2 - op.y1,
                        w == self.img.width,
                        base == 4 * (y * self.img.width + x),
                        base + 4 <= self.img.pixels@.len(),
                        plen == self.img.pixels@.len(),
                        target == crop_px(
                            self.img.pixels@,
                            self.img.width as int,
                            op.x1 as int,
                            op.y1 as int,
                            op.x2 as int,
                            op.y2 as int,
                        ),
                        target.len() == 4 * cw * ch,
                        out@.len() == 4 * (cw * (y - op.y1) + (x - op.x1)) + c,
                        out@ == target.take(out@.len() as int),
                    decreases 4 - c,
                {
                    let b: u8 = self.img.pixels[base + c];
                    proof {
                        lemma_crop_px_index(
                            self.img.pixels@,
                            self.img.width as int,
                            op.x1 as int,
                            op.y1 as int,
                            op.x2 as int,
                            op.y2 as int,
                            x as int,
                            y as int,
                            c as int,
                        );
                        assert(target[out@.len() as int] == b);
                    }
                    let ghost before = out@;
                    out.push(b);
                    proof {
                        assert(out@ =~= target.take(before.len() as int + 1));
                    }
                    c += 1;
                }
                x += 1;
            }
            proof {
                assert(4 * (cw * (y - op.y1) + (op.x2 - op.x1)) == 4 * (cw * ((y + 1) - op.y1)))
                    by (nonlinear_arith)
                    requires
                        cw == op.x2 - op.x1,
                ;
            }
            y += 1;
        }
        proof {
            assert(out@.len() == 4 * (cw * ch)) by (nonlinear_arith)
                requires
                    out@.len() == 4 * (cw * (op.y2 - op.y1)),
                    ch == op.y2 - op.y1,
            ;
            assert(out@.len() == target.len()) by (nonlinear_arith)
                requires
                    out@.len() == 4 * (cw * ch),
                    target.len() == 4 * cw * ch,
            ;
            assert(out@ =~= target);
            assert(out@.len() == 4 * cw * ch);
        }
        self.img = Image { width: cw, height: ch, pixels: out };
        Ok(())
    }

    /// Adjusts per-pixel contrast; dimensions are kept.
    pub fn transform_contrast(&mut self, op: &Contrast)
        requires
            old(self).wf(),
        ensures
            final(self).wf(),
            final(self).watermark == old(self).watermark,
            Some(final(self).model()) == step(
                old(self).model(),
                old(self).wm_model(),
                Spec { data: Some(SpecData::Contrast(*op)) },
            ),
    {
        let px = photon_contrast(&self.img, op.contrast);
        self.img = Image { width: self.img.width, height: self.img.height, pixels: px };
    }

    /// Converts the picture to its gray equivalent; dimensions are kept.
    pub fn transform_gray(&mut self)
        requires
            old(self).wf(),
        ensures
            final(self).wf(),
            final(self).watermark == old(self).watermark,
            Some(final(self).model()) == step(
                old(self).model(),
                old(self).wm_model(),
                Spec { data: Some(SpecData::Gray) },
            ),
    {
        let px = photon_gray(&self.img);
        self.img = Image { width: self.img.width, height: self.img.height, pixels: px };
    }

    /// Mirrors the picture along the vertical axis; dimensions are kept.
    pub fn transform_fliph(&mut self)
        requires
            old(self).wf(),
        ensures
            final(self).wf(),
            final(self).watermark == old(self).watermark,
            Some(final(self).model()) == step(
                old(self).model(),
                old(self).wm_model(),
                Spec { data: Some(SpecData::Fliph) },
            ),
    {
        let px = photon_fliph(&self.img);
        self.img = Image { width: self.img.width, height: self.img.height, pixels: px };
    }

    /// Mirrors the picture along the horizontal axis; dimensions are kept.
    pub fn transform_flipv(&mut self)
        requires
            old(self).wf(),
        ensures
            final(self).wf(),
            final(self).watermark == old(self).watermark,
            Some(final(self).model()) == step(
                old(self).model(),
                old(self).wm_model(),
                Spec { data: Some(SpecData::Flipv) },
            ),
    {
        let px = photon_flipv(&self.img);
        self.img = Image { width: self.img.width, height: self.img.height, pixels: px };
    }

    /// Applies a named filter from the catalog. The unspecified filter is a
    /// documented no-op: the picture is left exactly as it was.
    pub fn transform_filter(&mut self, op: &Filter)
        requires
            old(self).wf(),
        ensures
            final(self).wf(),
            final(self).watermark == old(self).watermark,
            Some(final(self).model()) == step(
                old(self).model(),
                old(self).wm_model(),
                Spec { data: Some(SpecData::Filter(*op)) },
            ),
            *op == Filter::Unspecified ==> *final(self) == *old(self),
    {
        match op.to_str() {
            None => {},
            Some(name) => {
                let px = photon_filter(&self.img, name);
                self.img = Image { width: self.img.width, height: self.img.height, pixels: px };
            },
        }
    }

    /// Resizes the picture with the requested algorithm. Fails, changing
    /// nothing, exactly when the target is empty.
    pub fn transform_resize(&mut self, op: &Resize) -> (r: Result<(), StructuralError>)
        requires
            old(self).wf(),
        ensures
            final(self).wf(),
            final(self).watermark == old(self).watermark,
            r is Ok <==> op.width > 0 && op.height > 0,
            r is Ok ==> Some(final(self).model()) == step(
                old(self).model(),
                old(self).wm_model(),
                Spec { data: Some(SpecData::Resize(*op)) },
            ),
            op.rtype == ResizeType::Normal && gray_channels(old(self).img.pixels@)
                ==> gray_channels(final(self).img.pixels@),
            r is Err ==> *final(self) == *old(self),
    {
        if op.width == 0 || op.height == 0 {
            return Err(StructuralError::EmptyResize);
        }
        match op.rtype {
            ResizeType::Normal => {
                self.img = photon_resize(&self.img, op.width, op.height, op.filter);
            },
            ResizeType::SeamCarve => {
                if self.img.width == 0 || self.img.height == 0 {
                    let nw: u32 = if self.img.width < op.width {
                        self.img.width
                    } else {
                        op.width
                    };
                    let nh: u32 = if self.img.height < op.height {
                        self.img.height
                    } else {
                        op.height
                    };
                    proof {
                        assert(nw == 0 || nh == 0);
                        assert(4 * nw * nh == 0) by (nonlinear_arith)
                            requires
                                nw == 0 || nh == 0,
                        ;
                    }
                    self.img = Image { width: nw, height: nh, pixels: Vec::new() };
                } else {
                    self.img = photon_seam_carve(&self.img, op.width, op.height);
                }
            },
        }
        Ok(())
    }

    /// Composites the shared watermark at the given offset. Only the covered
    /// pixel region changes: every byte outside it is left as it was, and an
    /// offset partly or wholly outside the picture raises no error.
    pub fn transform_watermark(&mut self, op: &Watermark)
        requires
            old(self).wf(),
        ensures
            final(self).wf(),
            final(self).watermark == old(self).watermark,
            Some(final(self).model()) == step(
                old(self).model(),
                old(self).wm_model(),
                Spec { data: Some(SpecData::Watermark(*op)) },
            ),
            final(self).img.width == old(self).img.width,
            final(self).img.height == old(self).img.height,
            forall|i: int|
                0 <= i < final(self).img.pixels@.len() && !in_overlay(
                    i,
                    old(self).img.width as int,
                    old(self).watermark.width as int,
                    old(self).watermark.height as int,
                    op.x as int,
                    op.y as int,
                ) ==> final(self).img.pixels@[i] == old(self).img.pixels@[i],
    {
        let px = photon_watermark(&self.img, &self.watermark, op.x, op.y);
        self.img = Image { width: self.img.width, height: self.img.height, pixels: px };
    }

    /// Executes the operations strictly in order, each seeing the cumulative
    /// effect of the ones before it; an empty step is skipped. Fails exactly
    /// when some operation fails structurally on the picture it meets.
    pub fn apply(&mut self, specs: &Vec<Spec>) -> (r: Result<(), StructuralError>)
        requires
            old(self).wf(),
        ensures
            final(self).wf(),
            final(self).watermark == old(self).watermark,
            r is Ok <==> apply_ops(old(self).model(), old(self).wm_model(), specs@) is Some,
            r is Ok ==> Some(final(self).model()) == apply_ops(
                old(self).model(),
                old(self).wm_model(),
                specs@,
            ),
            r is Ok && specs@.len() > 0 && specs@.last() == (Spec { data: Some(SpecData::Gray) })
                ==> gray_channels(final(self).img.pixels@),
            r is Ok && specs@.len() > 0 && specs@[0] == (Spec { data: Some(SpecData::Gray) })
                && (forall|j: int| 1 <= j < specs@.len() ==> keeps_gray(#[trigger] specs@[j]))
                ==> gray_channels(final(self).img.pixels@),
    {
        let n = specs.len();
        proof {
            assert(specs@.skip(0) =~= specs@);
        }
        let mut i: usize = 0;
        while i < n
            invariant
                n == specs@.len(),
                0 <= i <= n,
                self.wf(),
                self.watermark == old(self).watermark,
                apply_ops(old(self).model(), old(self).wm_model(), specs@) == apply_ops(
                    self.model(),
                    old(self).wm_model(),
                    specs@.skip(i as int),
                ),
                i > 0 && specs@[i - 1] == (Spec { data: Some(SpecData::Gray) }) ==> gray_channels(
                    self.img.pixels@,
                ),
                i > 0 && specs@[0] == (Spec { data: Some(SpecData::Gray) }) && (forall|j: int|
                    1 <= j < i ==> keeps_gray(#[trigger] specs@[j])) ==> gray_channels(
                    self.img.pixels@,
                ),
            decreases n - i,
        {
            let ghost pre = self.model();
            let ghost rest = specs@.skip(i as int);
            proof {
                assert(rest[0] == specs@[i as int]);
                assert(rest.drop_first() =~= specs@.skip(i as int + 1));
            }
            let s = &specs[i];
            match &s.data {
                None => {},
                Some(SpecData::Crop(c)) => {
                    let c = *c;
                    match self.transform_crop(&c) {
                        Ok(()) => {},
                        Err(e) => {
                            return Err(e);
                        },
                    }
                },
                Some(SpecData::Contrast(c)) => {
                    let c = *c;
                    self.transform_contrast(&c);
                },
                Some(SpecData::Gray) => {
                    self.transform_gray();
                },
                Some(SpecData::Fliph) => {
                    self.transform_fliph();
                },
                Some(SpecData::Flipv) => {
                    self.transform_flipv();
                },
                Some(SpecData::Filter(f)) => {
                    let f = *f;
                    self.transform_filter(&f);
                },
                Some(SpecData::Resize(rz)) => {
                    let rz = *rz;
                    match self.transform_resize(&rz) {
                        Ok(()) => {},
                        Err(e) => {
                            return Err(e);
                        },
                    }
                },
                Some(SpecData::Watermark(wm)) => {
                    let wm = *wm;
                    self.transform_watermark(&wm);
                },
            }
            proof {
                assert(Some(self.model()) == step(pre, old(self).wm_model(), specs@[i as int]));
                if specs@[i as int] == (Spec { data: Some(SpecData::Gray) }) {
                    lemma_gray_px_is_gray(pre.2);
                }
                if specs@[0] == (Spec { data: Some(SpecData::Gray) }) && (forall|j: int|
                    1 <= j < i as int + 1 ==> keeps_gray(#[trigger] specs@[j])) {
                    if i == 0 {
                        assert(gray_channels(self.img.pixels@));
                    } else {
                        assert(gray_channels(pre.2));
                        assert(keeps_gray(specs@[i as int]));
                        match specs@[i as int].data {
                            None => {
                                assert(self.img.pixels@ == pre.2);
                            },
                            Some(SpecData::Gray) => {},
                            Some(SpecData::Filter(f)) => {
                                assert(f == Filter::Unspecified);
                                assert(self.img.pixels@ == pre.2);
                            },
                            Some(SpecData::Resize(r2)) => {
                                assert(r2.rtype == ResizeType::Normal);
                                assert(gray_channels(self.img.pixels@));
                            },
                            _ => {
                                assert(false);
                            },
                        }
                    }
                }
            }
            i += 1;
        }
        proof {
            assert(specs@.skip(n as int) =~= Seq::<Spec>::empty());
        }
        Ok(())
    }

    /// Encodes the current pixel buffer into the requested container and
    /// returns the final payload, consuming the engine: no operation can
    /// follow. Succeeds exactly when the encoder accepts the held buffer in
    /// that format.
    pub fn generate(self, format: OutputFormat) -> (r: Result<Vec<u8>, EncodeError>)
        requires
            self.wf(),
        ensures
            r is Ok <==> encode_ok(
                self.img.pixels@,
                self.img.width as int,
                self.img.height as int,
                fmt_code(format),
            ),
            r is Ok ==> r->Ok_0@ == encoded_of(
                self.img.pixels@,
                self.img.width as int,
                self.img.height as int,
                fmt_code(format),
            ),
    {
        image_encode(&self.img, &format)
    }
}

proof fn lemma_src_index_bound(w: int, h: int, x: int, y: int)
    requires
        0 <= x < w,
        0 <= y < h,
    ensures
        4 * (y * w + x) + 4 <= 4 * w * h,
        y * w + x >= 0,
{
    assert(4 * (y * w + x) + 4 <= 4 * w * h && y * w + x >= 0) by (nonlinear_arith)
        requires
            0 <= x < w,
            0 <= y < h,
    ;
}

/// Byte `4 * ((y - y1) * (x2 - x1) + (x - x1)) + c` of a crop is source byte
/// `4 * (y * w + x) + c`.
proof fn lemma_crop_px_index(
    px: Seq<u8>,
    w: int,
    x1: int,
    y1: int,
    x2: int,
    y2: int,
    x: int,
    y: int,
    c: int,
)
    requires
        0 <= x1 <= x < x2 <= w,
        0 <= y1 <= y < y2,
        0 <= c < 4,
        4 * (y2 - y1) * (x2 - x1) >= 0,
    ensures
        0 <= 4 * ((y - y1) * (x2 - x1) + (x - x1)) + c < crop_px(px, w, x1, y1, x2, y2).len(),
        crop_px(px, w, x1, y1, x2, y2)[4 * ((y - y1) * (x2 - x1) + (x - x1)) + c] == px[4 * (y * w
            + x) + c],
{
    let cw = x2 - x1;
    let p = (y - y1) * cw + (x - x1);
    let i = 4 * p + c;
    assert(0 <= p && 4 * p + c < 4 * cw * (y2 - y1)) by (nonlinear_arith)
        requires
            0 <= x1 <= x < x2 <= w,
            0 <= y1 <= y < y2,
            0 <= c < 4,
            cw == x2 - x1,
            p == (y - y1) * cw + (x - x1),
    ;
    lemma_fundamental_div_mod_converse(i, 4, p, c);
    lemma_fundamental_div_mod_converse(p, cw, y - y1, x - x1);
    assert(i / 4 == p && i % 4 == c);
    assert(p / cw == y - y1 && p % cw == x - x1);
    assert(crop_px(px, w, x1, y1, x2, y2).len() == 4 * cw * (y2 - y1));
}


/// A normal resize and a grayscale yield the target dimensions in either
/// order: both pipelines succeed, and both end at `w x h`.
pub proof fn lemma_resize_grayscale_dims(
    m: (int, int, Seq<u8>),
    wm: (int, int, Seq<u8>),
    w: u32,
    h: u32,
    k: SampleFilter,
)
    requires
        w > 0,
        h > 0,
    ensures
        ({
            let rz = Spec {
                data: Some(SpecData::Resize(Resize {
                    width: w,
                    height: h,
                    rtype: ResizeType::Normal,
                    filter: k,
                })),
            };
            let gr = Spec { data: Some(SpecData::Gray) };
            let a = apply_ops(m, wm, seq![rz, gr]);
            let b = apply_ops(m, wm, seq![gr, rz]);
            &&& a is Some && a.unwrap().0 == w && a.unwrap().1 == h
            &&& b is Some && b.unwrap().0 == w && b.unwrap().1 == h
            &&& gray_channels(a.unwrap().2)
        }),
{
    let rz = Spec {
        data: Some(SpecData::Resize(Resize {
            width: w,
            height: h,
            rtype: ResizeType::Normal,
            filter: k,
        })),
    };
    let gr = Spec { data: Some(SpecData::Gray) };
    reveal_with_fuel(apply_ops, 4);
    assert(seq![rz, gr].drop_first() =~= seq![gr]);
    assert(seq![gr].drop_first() =~= Seq::<Spec>::empty());
    assert(seq![gr, rz].drop_first() =~= seq![rz]);
    assert(seq![rz].drop_first() =~= Seq::<Spec>::empty());
    lemma_gray_px_is_gray(resize_of(m.2, m.0, m.1, w as int, h as int, sample_code(k) as int));
}

/// A crop followed by a normal resize yields exactly the resize target,
/// computed from the cropped region's pixels alone: the resize never sees a
/// pixel outside the crop rectangle.
pub proof fn lemma_crop_then_resize(
    m: (int, int, Seq<u8>),
    wm: (int, int, Seq<u8>),
    c: Crop,
    rz: Resize,
)
    requires
        c.x1 < c.x2,
        c.y1 < c.y2,
        c.x2 <= m.0,
        c.y2 <= m.1,
        rz.width > 0,
        rz.height > 0,
        rz.rtype == ResizeType::Normal,
    ensures
        ({
            let ops = seq![
                Spec { data: Some(SpecData::Crop(c)) },
                Spec { data: Some(SpecData::Resize(rz)) },
            ];
            let cropped = crop_px(m.2, m.0, c.x1 as int, c.y1 as int, c.x2 as int, c.y2 as int);
            apply_ops(m, wm, ops) == Some(
                (
                    rz.width as int,
                    rz.height as int,
                    resize_of(
                        cropped,
                        c.x2 - c.x1,
                        c.y2 - c.y1,
                        rz.width as int,
                        rz.height as int,
                        sample_code(rz.filter) as int,
                    ),
                ),
            )
        }),
{
    let cr = Spec { data: Some(SpecData::Crop(c)) };
    let rs = Spec { data: Some(SpecData::Resize(rz)) };
    reveal_with_fuel(apply_ops, 4);
    assert(seq![cr, rs].drop_first() =~= seq![rs]);
    assert(seq![rs].drop_first() =~= Seq::<Spec>::empty());
}

/// The unspecified filter is a no-op: applying it alone hands back the
/// picture unchanged, dimensions and pixel data alike.
pub proof fn lemma_unspecified_filter_noop(m: (int, int, Seq<u8>), wm: (int, int, Seq<u8>))
    ensures
        apply_ops(m, wm, seq![Spec { data: Some(SpecData::Filter(Filter::Unspecified)) }])
            == Some(m),
{
    let f = Spec { data: Some(SpecData::Filter(Filter::Unspecified)) };
    reveal_with_fuel(apply_ops, 3);
    assert(seq![f].drop_first() =~= Seq::<Spec>::empty());
}

/// An invalid crop rectangle fails the whole pipeline, whatever follows it:
/// no final picture, hence no output bytes, is produced.
pub proof fn lemma_invalid_crop_rejected(
    m: (int, int, Seq<u8>),
    wm: (int, int, Seq<u8>),
    c: Crop,
    rest: Seq<Spec>,
)
    requires
        !(c.x1 < c.x2 && c.y1 < c.y2 && c.x2 <= m.0 && c.y2 <= m.1),
    ensures
        apply_ops(m, wm, seq![Spec { data: Some(SpecData::Crop(c)) }] + rest) is None,
{
    let ops = seq![Spec { data: Some(SpecData::Crop(c)) }] + rest;
    assert(ops[0] == Spec { data: Some(SpecData::Crop(c)) });
    assert(ops.len() > 0);
}


/// Grayscale's output is a gray picture, whatever the input was.
pub proof fn lemma_gray_px_is_gray(px: Seq<u8>)
    ensures
        gray_channels(gray_px(px)),
{
    assert forall|p: int| 0 <= p && 4 * p + 3 < gray_px(px).len() implies #[trigger] gray_px(
        px,
    )[4 * p] == gray_px(px)[4 * p + 1] && gray_px(px)[4 * p + 1] == gray_px(px)[4 * p + 2] by {
        lemma_gray_channels_equal(px, p);
    }
}

/// A picture that has been turned gray has equal color channels at every
/// pixel: gray stays gray whatever the picture was.
pub proof fn lemma_gray_channels_equal(px: Seq<u8>, p: int)
    requires
        0 <= p,
        4 * p + 3 < gray_px(px).len(),
    ensures
        gray_px(px)[4 * p] == gray_px(px)[4 * p + 1],
        gray_px(px)[4 * p + 1] == gray_px(px)[4 * p + 2],
{
    lemma_fundamental_div_mod_converse(4 * p, 4, p, 0);
    lemma_fundamental_div_mod_converse(4 * p + 1, 4, p, 1);
    lemma_fundamental_div_mod_converse(4 * p + 2, 4, p, 2);
}

} // verus!

use vstd::arithmetic::div_mod::lemma_fundamental_div_mod_converse;
