use vstd::prelude::*;
use vstd::string::*;
use load_image::ImageData;
use crate::errors::AppError;

verus! {

/// The largest width or height libwebp's encoder accepts.
pub const MAX_WEBP_DIM: usize = 16383;

/// Pixel data as decoded, before normalization to packed 8-bit RGB.
pub enum PixelData {
    Rgb8(Vec<(u8, u8, u8)>),
    Rgba8(Vec<(u8, u8, u8, u8)>),
    Rgb16(Vec<(u16, u16, u16)>),
    Unsupported,
}

/// An in-memory decoded image: dimensions plus its pixel buffer. Ephemeral,
/// owned by the conversion of one item.
pub struct DecodedImage {
    pub width: usize,
    pub height: usize,
    pub data: PixelData,
}

/// The mathematical value of a pixel buffer.
pub enum PixelsView {
    Rgb8(Seq<(u8, u8, u8)>),
    Rgba8(Seq<(u8, u8, u8, u8)>),
    Rgb16(Seq<(u16, u16, u16)>),
    Unsupported,
}

/// The mathematical value of a decoded image.
pub struct ImageView {
    pub width: nat,
    pub height: nat,
    pub pixels: PixelsView,
}

impl View for PixelData {
    type V = PixelsView;

    open spec fn view(&self) -> PixelsView {
        match self {
            PixelData::Rgb8(v) => PixelsView::Rgb8(v@),
            PixelData::Rgba8(v) => PixelsView::Rgba8(v@),
            PixelData::Rgb16(v) => PixelsView::Rgb16(v@),
            PixelData::Unsupported => PixelsView::Unsupported,
        }
    }
}

impl View for DecodedImage {
    type V = ImageView;

    open spec fn view(&self) -> ImageView {
        ImageView { width: self.width as nat, height: self.height as nat, pixels: self.data@ }
    }
}

/// How many pixels a buffer holds.
pub open spec fn pixel_count(p: PixelsView) -> nat {
    match p {
        PixelsView::Rgb8(s) => s.len(),
        PixelsView::Rgba8(s) => s.len(),
        PixelsView::Rgb16(s) => s.len(),
        PixelsView::Unsupported => 0,
    }
}

/// A decoded image is coherent when its buffer holds one pixel per coordinate.
pub open spec fn image_wf(img: ImageView) -> bool {
    pixel_count(img.pixels) == img.width * img.height
}

/// What the decoder guarantees of a decoded image: a supported layout's
/// buffer holds one pixel per coordinate. An unsupported layout's buffer is
/// not modeled, so nothing is claimed of it.
pub open spec fn decoded_wf(img: ImageView) -> bool {
    img.pixels is Unsupported || image_wf(img)
}

/// A PNG whose header declares the indexed-color layout: the PNG signature
/// followed by an IHDR chunk whose color-type byte is 3. The color type sits
/// at a fixed offset because IHDR must be the first chunk of a PNG.
pub open spec fn indexed_png(bytes: Seq<u8>) -> bool {
    bytes.len() > 25 && bytes[0] == 0x89 && bytes[1] == 0x50 && bytes[2] == 0x4E && bytes[3]
        == 0x47 && bytes[4] == 0x0D && bytes[5] == 0x0A && bytes[6] == 0x1A && bytes[7] == 0x0A
        && bytes[25] == 3
}

/// Whether the bytes declare an indexed-color PNG.
fn is_indexed_png(data: &Vec<u8>) -> (r: bool)
    ensures
        r == indexed_png(data@),
{
    data.len() > 25 && data[0] == 0x89 && data[1] == 0x50 && data[2] == 0x4E && data[3] == 0x47
        && data[4] == 0x0D && data[5] == 0x0A && data[6] == 0x1A && data[7] == 0x0A && data[25]
        == 3
}

/// What load_image::load_data decodes the given bytes to, if anything.
/// Decoding reads nothing but the bytes, so this is a function of them alone.
pub uninterp spec fn decoded_image(bytes: Seq<u8>) -> Option<ImageView>;

/// Relies on load_image::load_data: whether and how bytes decode is a function
/// of the bytes alone, and for the layouts modeled here (RGB8, RGBA8, RGB16)
/// the decoded bitmap holds exactly width * height pixels (the decoders fill
/// the whole buffer). Other layouts are carried as Unsupported, keeping only
/// the dimensions, so nothing is claimed of their buffers. load_data expands
/// an indexed file's palette without checking the pixel indices against the
/// palette's length, so a malformed indexed file panics inside the call;
/// indexed PNGs are excluded here, and the caller rejects them as an
/// unsupported layout without decoding.
#[verifier::external_body]
pub(crate) fn load_image(data: &Vec<u8>) -> (r: Result<DecodedImage, AppError>)
    requires
        !indexed_png(data@),
    ensures
        r is Ok <==> decoded_image(data@) is Some,
        r matches Ok(img) ==> decoded_image(data@) == Some(img@) && decoded_wf(img@),
        r matches Err(e) ==> e == AppError::LoadError,
{
    let img = load_image::load_data(data.as_slice()).map_err(|_| AppError::LoadError)?;
    let data = match img.bitmap {
        ImageData::RGB8(v) => PixelData::Rgb8(v.into_iter().map(|p| (p.r, p.g, p.b)).collect()),
        ImageData::RGBA8(v) => PixelData::Rgba8(v.into_iter().map(|p| (p.r, p.g, p.b, p.a)).collect()),
        ImageData::RGB16(v) => PixelData::Rgb16(v.into_iter().map(|p| (p.r, p.g, p.b)).collect()),
        _ => PixelData::Unsupported,
    };
    Ok(DecodedImage { width: img.width, height: img.height, data })
}

/// Three bytes per pixel, in pixel order.
pub open spec fn rgb8_flat(s: Seq<(u8, u8, u8)>) -> Seq<u8>
    decreases s.len(),
{
    if s.len() == 0 {
        Seq::empty()
    } else {
        rgb8_flat(s.drop_last()) + seq![s.last().0, s.last().1, s.last().2]
    }
}

/// A 16-bit channel reduced to its top eight bits.
pub open spec fn high_byte(c: u16) -> u8 {
    (c / 256) as u8
}

/// An RGBA pixel with its alpha dropped.
pub open spec fn drop_alpha(px: (u8, u8, u8, u8)) -> (u8, u8, u8) {
    (px.0, px.1, px.2)
}

/// A 16-bit RGB pixel reduced channel-wise to eight bits.
pub open spec fn rgb16_to8(px: (u16, u16, u16)) -> (u8, u8, u8) {
    (high_byte(px.0), high_byte(px.1), high_byte(px.2))
}

/// Packed RGB bytes of an RGBA buffer, alpha dropped.
pub open spec fn rgba8_rgb(s: Seq<(u8, u8, u8, u8)>) -> Seq<u8> {
    rgb8_flat(s.map_values(|px: (u8, u8, u8, u8)| drop_alpha(px)))
}

/// Packed RGB bytes of a 16-bit RGB buffer, each channel's top byte kept.
pub open spec fn rgb16_rgb(s: Seq<(u16, u16, u16)>) -> Seq<u8> {
    rgb8_flat(s.map_values(|px: (u16, u16, u16)| rgb16_to8(px)))
}

/// The pixel buffer normalized to packed 8-bit RGB triples, or nothing for an
/// unsupported layout.
pub open spec fn normalized_rgb(p: PixelsView) -> Option<Seq<u8>> {
    match p {
        PixelsView::Rgb8(s) => Some(rgb8_flat(s)),
        PixelsView::Rgba8(s) => Some(rgba8_rgb(s)),
        PixelsView::Rgb16(s) => Some(rgb16_rgb(s)),
        PixelsView::Unsupported => None,
    }
}

pub proof fn lemma_rgb8_flat_len(s: Seq<(u8, u8, u8)>)
    ensures
        rgb8_flat(s).len() == 3 * s.len(),
    decreases s.len(),
{
    if s.len() > 0 {
        lemma_rgb8_flat_len(s.drop_last());
    }
}

fn flatten_rgb8(v: &Vec<(u8, u8, u8)>) -> (out: Vec<u8>)
    ensures
        out@ == rgb8_flat(v@),
{
    let mut out: Vec<u8> = Vec::new();
    let mut i: usize = 0;
    while i < v.len()
        invariant
            i <= v@.len(),
            out@ == rgb8_flat(v@.take(i as int)),
        decreases v@.len() - i,
    {
        let p = v[i];
        out.push(p.0);
        out.push(p.1);
        out.push(p.2);
        proof {
            assert(v@.take(i + 1).drop_last() =~= v@.take(i as int));
            assert(out@ =~= rgb8_flat(v@.take(i + 1)));
        }
        i = i + 1;
    }
    proof {
        assert(v@.take(v@.len() as int) =~= v@);
    }
    out
}

fn flatten_rgba8(v: &Vec<(u8, u8, u8, u8)>) -> (out: Vec<u8>)
    ensures
        out@ == rgba8_rgb(v@),
{
    let mut out: Vec<u8> = Vec::new();
    let mut i: usize = 0;
    while i < v.len()
        invariant
            i <= v@.len(),
            out@ == rgba8_rgb(v@.take(i as int)),
        decreases v@.len() - i,
    {
        let p = v[i];
        out.push(p.0);
        out.push(p.1);
        out.push(p.2);
        proof {
            let m0 = v@.take(i as int).map_values(|px: (u8, u8, u8, u8)| drop_alpha(px));
            let m1 = v@.take(i + 1).map_values(|px: (u8, u8, u8, u8)| drop_alpha(px));
            assert(m1.drop_last() =~= m0);
            assert(m1.last() == drop_alpha(v@[i as int]));
            assert(out@ =~= rgb8_flat(m1));
        }
        i = i + 1;
    }
    proof {
        assert(v@.take(v@.len() as int) =~= v@);
    }
    out
}

fn flatten_rgb16(v: &Vec<(u16, u16, u16)>) -> (out: Vec<u8>)
    ensures
        out@ == rgb16_rgb(v@),
{
    let mut out: Vec<u8> = Vec::new();
    let mut i: usize = 0;
    while i < v.len()
        invariant
            i <= v@.len(),
            out@ == rgb16_rgb(v@.take(i as int)),
        decreases v@.len() - i,
    {
        let p = v[i];
        out.push((p.0 / 256) as u8);
        out.push((p.1 / 256) as u8);
        out.push((p.2 / 256) as u8);
        proof {
            let m0 = v@.take(i as int).map_values(|px: (u16, u16, u16)| rgb16_to8(px));
            let m1 = v@.take(i + 1).map_values(|px: (u16, u16, u16)| rgb16_to8(px));
            assert(m1.drop_last() =~= m0);
            assert(m1.last() == rgb16_to8(v@[i as int]));
            assert(out@ =~= rgb8_flat(m1));
        }
        i = i + 1;
    }
    proof {
        assert(v@.take(v@.len() as int) =~= v@);
    }
    out
}

/// The bytes libwebp's lossless encoder produces for a packed RGB buffer of
/// the given dimensions: the encoder reads nothing else, so this is a function
/// of buffer and dimensions alone.
pub uninterp spec fn webp_bytes(rgb: Seq<u8>, width: u32, height: u32) -> Seq<u8>;

/// Relies on webp::Encoder::from_rgb and webp::Encoder::encode_lossless: the
/// encoder is deterministic in its input, and a successful encode is a
/// non-empty WebP container. from_rgb panics when the buffer is shorter than
/// 3 * width * height, and encode_lossless panics when a dimension is zero or
/// above libwebp's limit of 16383, so those inputs are excluded here.
#[verifier::external_body]
pub(crate) fn encode_webp(rgb: &Vec<u8>, width: u32, height: u32) -> (r: Vec<u8>)
    requires
        1 <= width <= 16383,
        1 <= height <= 16383,
        rgb@.len() == 3 * width * height,
    ensures
        r@ == webp_bytes(rgb@, width, height),
        r@.len() > 0,
{
    webp::Encoder::from_rgb(rgb.as_slice(), width, height).encode_lossless().to_vec()
}

/// What converting one decoded image yields: its lossless WebP encoding, or
/// nothing when the layout is unsupported, the normalized buffer is empty, or
/// a dimension exceeds the encoder's limit.
pub open spec fn webp_output(img: ImageView) -> Option<Seq<u8>> {
    match normalized_rgb(img.pixels) {
        None => None,
        Some(rgb) => {
            if rgb.len() == 0 || img.width > MAX_WEBP_DIM || img.height > MAX_WEBP_DIM {
                None
            } else {
                Some(webp_bytes(rgb, img.width as u32, img.height as u32))
            }
        },
    }
}

/// Normalize a decoded image to packed RGB and encode it as lossless WebP.
pub fn convert_to_webp(img: DecodedImage) -> (r: Option<Vec<u8>>)
    requires
        decoded_wf(img@),
    ensures
        r matches Some(v) ==> webp_output(img@) == Some(v@),
        r matches Some(v) ==> v@.len() > 0,
        r is None <==> webp_output(img@) is None,
{
    let width = img.width;
    let height = img.height;
    let bitmap: Vec<u8>;
    match &img.data {
        PixelData::Rgb8(v) => {
            bitmap = flatten_rgb8(v);
            proof {
                lemma_rgb8_flat_len(v@);
                assert(bitmap@.len() == 3 * pixel_count(img@.pixels));
                assert(normalized_rgb(img@.pixels) == Some(bitmap@));
            }
        },
        PixelData::Rgba8(v) => {
            bitmap = flatten_rgba8(v);
            proof {
                lemma_rgb8_flat_len(v@.map_values(|px: (u8, u8, u8, u8)| drop_alpha(px)));
                assert(bitmap@.len() == 3 * pixel_count(img@.pixels));
                assert(normalized_rgb(img@.pixels) == Some(bitmap@));
            }
        },
        PixelData::Rgb16(v) => {
            bitmap = flatten_rgb16(v);
            proof {
                lemma_rgb8_flat_len(v@.map_values(|px: (u16, u16, u16)| rgb16_to8(px)));
                assert(bitmap@.len() == 3 * pixel_count(img@.pixels));
                assert(normalized_rgb(img@.pixels) == Some(bitmap@));
            }
        },
        PixelData::Unsupported => {
            return None;
        },
    }
    if bitmap.len() == 0 {
        return None;
    }
    if width > MAX_WEBP_DIM || height > MAX_WEBP_DIM {
        return None;
    }
    proof {
        assert(!(img@.pixels is Unsupported));
        assert(image_wf(img@));
        assert(bitmap@.len() == 3 * (img@.width * img@.height));
        assert(img@.width * img@.height > 0);
        assert(img@.width >= 1 && img@.height >= 1) by (nonlinear_arith)
            requires
                img@.width * img@.height > 0,
        ;
        let w = img@.width as int;
        let h = img@.height as int;
        assert(3 * w * h == 3 * (w * h)) by (nonlinear_arith);
        assert(bitmap@.len() == 3 * (width as u32) * (height as u32));
    }
    let out = encode_webp(&bitmap, width as u32, height as u32);
    Some(out)
}

/// The largest index holding '.', or -1 when none does.
pub open spec fn last_dot(name: Seq<char>) -> int
    decreases name.len(),
{
    if name.len() == 0 {
        -1
    } else if name.last() == '.' {
        name.len() - 1
    } else {
        last_dot(name.drop_last())
    }
}

/// A file name with its extension removed: everything before the last '.'.
/// A name with no '.', or whose only '.' leads it, has no extension and is
/// kept whole.
pub open spec fn stem_of(name: Seq<char>) -> Seq<char> {
    if last_dot(name) <= 0 {
        name
    } else {
        name.subrange(0, last_dot(name))
    }
}

/// The output name of a converted upload: its stem with ".webp" appended.
pub open spec fn webp_name_of(name: Seq<char>) -> Seq<char> {
    stem_of(name) + ".webp"@
}

/// Strip the extension from a file name.
pub fn filename_without_extension(filename: &str) -> (r: String)
    ensures
        r@ == stem_of(filename@),
{
    let n = filename.unicode_len();
    proof {
        assert(filename@.take(n as int) =~= filename@);
    }
    let mut i: usize = n;
    while i > 0
        invariant
            i <= n,
            n == filename@.len(),
            last_dot(filename@) == last_dot(filename@.take(i as int)),
        decreases i,
    {
        if filename.get_char(i - 1) == '.' {
            proof {
                assert(filename@.take(i as int).last() == filename@[i - 1]);
            }
            if i - 1 == 0 {
                return filename.to_owned();
            }
            let stem = filename.substring_char(0, i - 1);
            return stem.to_owned();
        }
        proof {
            assert(filename@.take(i as int).drop_last() =~= filename@.take(i - 1));
        }
        i = i - 1;
    }
    proof {
        assert(filename@.take(0) =~= Seq::<char>::empty());
    }
    filename.to_owned()
}

/// What converting one upload yields: the output name and the WebP bytes, or
/// this item's error. An indexed image's layout is unsupported and already
/// declared in its header, so it is rejected without decoding.
pub open spec fn process_spec(data: Seq<u8>, filename: Seq<char>) -> Result<(Seq<char>, Seq<u8>), AppError> {
    if indexed_png(data) {
        Err(AppError::ConversionFailed)
    } else {
        match decoded_image(data) {
            None => Err(AppError::InvalidImageFormat),
            Some(img) => match webp_output(img) {
                None => Err(AppError::ConversionFailed),
                Some(w) => Ok((webp_name_of(filename), w)),
            },
        }
    }
}

/// Convert one upload: decode, normalize, encode, and derive the output name.
pub fn process_image(data: Vec<u8>, filename: String) -> (r: Result<(String, Vec<u8>), AppError>)
    ensures
        r is Ok <==> process_spec(data@, filename@) is Ok,
        r matches Ok(p) ==> process_spec(data@, filename@) == Ok::<(Seq<char>, Seq<u8>), AppError>((p.0@, p.1@)),
        r matches Ok(p) ==> p.1@.len() > 0,
        r matches Err(e) ==> process_spec(data@, filename@) == Err::<(Seq<char>, Seq<u8>), AppError>(e),
{
    if is_indexed_png(&data) {
        return Err(AppError::ConversionFailed);
    }
    let img = match load_image(&data) {
        Ok(i) => i,
        Err(_) => {
            return Err(AppError::InvalidImageFormat);
        },
    };
    let webp_image = match convert_to_webp(img) {
        Some(w) => w,
        None => {
            return Err(AppError::ConversionFailed);
        },
    };
    let stem = filename_without_extension(filename.as_str());
    let webp_filename = stem.concat(".webp");
    Ok((webp_filename, webp_image))
}

} // verus!
