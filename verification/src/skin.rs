//! The pet's skin: where it is downloaded from, how the downloaded PNG
//! becomes ClassiCube bitmap colours, which skin layout they are, and the
//! kept pixel data that rebuilds the texture after a graphics-context loss.

use vstd::prelude::*;
use crate::text::{has_prefix, str_starts_with};

verus! {

/// Skin server used for bare skin names.
pub const DEFAULT_SKIN_SERVER: &'static str = "http://cdn.classicube.net/skin";

/// Legacy half-height layout (64x32, 128x64, ...).
pub const SKIN_64X32: u8 = 0;

/// Square layout with classic arms.
pub const SKIN_64X64: u8 = 1;

/// Square layout with slim (Alex) arms.
pub const SKIN_64X64_SLIM: u8 = 2;

/// Not a skin layout ClassiCube understands.
pub const SKIN_INVALID: u8 = 0xF0;

/// The URL a skin name is fetched from: names that already are `http://`
/// or `https://` URLs are used verbatim, other names become
/// `<DEFAULT_SKIN_SERVER>/<name>.png`.
pub open spec fn skin_url_of(name: Seq<char>) -> Seq<char> {
    if has_prefix(name, "http://"@) || has_prefix(name, "https://"@) {
        name
    } else {
        DEFAULT_SKIN_SERVER@ + "/"@ + name + ".png"@
    }
}

/// Return the full URL to fetch a skin PNG.
///
/// If `skin_name` already starts with `http://` or `https://` it is used
/// verbatim; otherwise we build `DEFAULT_SKIN_SERVER/<skin_name>.png`.
pub fn skin_url(skin_name: &str) -> (url: String)
    ensures
        url@ == skin_url_of(skin_name@),
{
    if str_starts_with(skin_name, "http://") || str_starts_with(skin_name, "https://") {
        String::from_str(skin_name)
    } else {
        let mut url = String::from_str(DEFAULT_SKIN_SERVER);
        url.append("/");
        url.append(skin_name);
        url.append(".png");
        url
    }
}

// ---------------------------------------------------------------------------
// Pixels
// ---------------------------------------------------------------------------

/// Bit positions of the four channels in a ClassiCube `BitmapCol`; they
/// differ between platforms.
pub struct ChannelShifts {
    pub r: u32,
    pub g: u32,
    pub b: u32,
    pub a: u32,
}

/// Every shift keeps a byte inside 32 bits' shifting range.
pub open spec fn shifts_ok(s: ChannelShifts) -> bool {
    s.r < 32 && s.g < 32 && s.b < 32 && s.a < 32
}

/// One RGBA pixel packed as a `BitmapCol`.
pub open spec fn packed(r: u8, g: u8, b: u8, a: u8, s: ChannelShifts) -> u32 {
    ((a as u32) << s.a) | ((r as u32) << s.r) | ((g as u32) << s.g) | ((b as u32) << s.b)
}

/// Repack a flat RGBA8 byte slice (4 bytes per pixel) into ClassiCube
/// `BitmapCol` values using the platform's shift constants. A trailing
/// partial pixel is dropped.
pub fn repack_rgba_to_bitmapcol(rgba: &[u8], shifts: &ChannelShifts) -> (out: Vec<u32>)
    requires
        shifts_ok(*shifts),
    ensures
        out@.len() == rgba@.len() / 4,
        forall|i: int|
            0 <= i < out@.len() ==> #[trigger] out@[i] == packed(
                rgba@[4 * i],
                rgba@[4 * i + 1],
                rgba@[4 * i + 2],
                rgba@[4 * i + 3],
                *shifts,
            ),
{
    let n: usize = rgba.len() / 4;
    let mut out: Vec<u32> = Vec::new();
    let mut i: usize = 0;
    while i < n
        invariant
            shifts_ok(*shifts),
            n == rgba@.len() / 4,
            rgba@.len() <= usize::MAX,
            i <= n,
            out@.len() == i,
            forall|k: int|
                0 <= k < i ==> #[trigger] out@[k] == packed(
                    rgba@[4 * k],
                    rgba@[4 * k + 1],
                    rgba@[4 * k + 2],
                    rgba@[4 * k + 3],
                    *shifts,
                ),
        decreases n - i,
    {
        assert(4 * i + 4 <= rgba@.len()) by (nonlinear_arith)
            requires
                i < n,
                n == rgba@.len() / 4,
        ;
        let r = rgba[4 * i] as u32;
        let g = rgba[4 * i + 1] as u32;
        let b = rgba[4 * i + 2] as u32;
        let a = rgba[4 * i + 3] as u32;
        out.push((a << shifts.a) | (r << shifts.r) | (g << shifts.g) | (b << shifts.b));
        i = i + 1;
    }
    out
}

/// The sample layouts a decoded PNG frame can have.
pub enum PixelLayout {
    Grayscale,
    Rgb,
    Indexed,
    GrayscaleAlpha,
    Rgba,
}

/// Why decoded pixels could not become a skin.
pub enum SkinError {
    /// A palette image reached the converter unexpanded.
    IndexedNotExpanded,
}

/// Bytes per pixel of a layout that `normalize_to_rgba` converts.
pub open spec fn layout_width(layout: PixelLayout) -> int {
    match layout {
        PixelLayout::Grayscale => 1,
        PixelLayout::Rgb => 3,
        PixelLayout::GrayscaleAlpha => 2,
        PixelLayout::Rgba => 4,
        PixelLayout::Indexed => 1,
    }
}

/// The RGBA bytes of pixel `i` of `data` in `layout`.
pub open spec fn rgba_pixel(layout: PixelLayout, data: Seq<u8>, i: int) -> Seq<u8> {
    match layout {
        PixelLayout::Grayscale => seq![data[i], data[i], data[i], 255u8],
        PixelLayout::Rgb => seq![data[3 * i], data[3 * i + 1], data[3 * i + 2], 255u8],
        PixelLayout::GrayscaleAlpha => seq![data[2 * i], data[2 * i], data[2 * i], data[2 * i + 1]],
        PixelLayout::Rgba => seq![data[4 * i], data[4 * i + 1], data[4 * i + 2], data[4 * i + 3]],
        PixelLayout::Indexed => Seq::empty(),
    }
}

/// `out` is `data` converted pixel by pixel to RGBA8.
pub open spec fn is_rgba_of(out: Seq<u8>, layout: PixelLayout, data: Seq<u8>) -> bool {
    let n = (data.len() as int) / layout_width(layout);
    &&& out.len() == 4 * n
    &&& forall|i: int|
        0 <= i < n ==> #[trigger] out.subrange(4 * i, 4 * i + 4) == rgba_pixel(layout, data, i)
}

/// Normalise 8-bit samples to RGBA8 regardless of source layout (a trailing
/// partial pixel is dropped). An unexpanded palette image is an error.
pub fn normalize_to_rgba(layout: &PixelLayout, data: &[u8]) -> (r: Result<Vec<u8>, SkinError>)
    ensures
        *layout is Indexed <==> r is Err,
        r matches Ok(out) ==> is_rgba_of(out@, *layout, data@),
{
    let w: usize = match layout {
        PixelLayout::Grayscale => 1,
        PixelLayout::Rgb => 3,
        PixelLayout::GrayscaleAlpha => 2,
        PixelLayout::Rgba => 4,
        PixelLayout::Indexed => {
            return Err(SkinError::IndexedNotExpanded);
        },
    };
    let n: usize = data.len() / w;
    let mut out: Vec<u8> = Vec::new();
    let mut i: usize = 0;
    while i < n
        invariant
            !(*layout is Indexed),
            w as int == layout_width(*layout),
            n == (data@.len() as int) / (w as int),
            data@.len() <= usize::MAX,
            i <= n,
            out@.len() == 4 * i,
            forall|k: int|
                0 <= k < i ==> #[trigger] out@.subrange(4 * k, 4 * k + 4) == rgba_pixel(
                    *layout,
                    data@,
                    k,
                ),
        decreases n - i,
    {
        assert(w * i + w <= w * n) by (nonlinear_arith)
            requires
                i < n,
                w > 0,
        ;
        assert(w * n <= data@.len()) by (nonlinear_arith)
            requires
                n == (data@.len() as int) / (w as int),
                w > 0,
        ;
        let (r, g, b, a): (u8, u8, u8, u8) = match layout {
            PixelLayout::Grayscale => (data[i], data[i], data[i], 255u8),
            PixelLayout::Rgb => (data[3 * i], data[3 * i + 1], data[3 * i + 2], 255u8),
            PixelLayout::GrayscaleAlpha => (data[2 * i], data[2 * i], data[2 * i], data[2 * i + 1]),
            PixelLayout::Rgba => (data[4 * i], data[4 * i + 1], data[4 * i + 2], data[4 * i + 3]),
            PixelLayout::Indexed => (0u8, 0u8, 0u8, 0u8),
        };
        let ghost before = out@;
        out.push(r);
        out.push(g);
        out.push(b);
        out.push(a);
        assert(out@.subrange(4 * i, 4 * i + 4) =~= rgba_pixel(*layout, data@, i as int));
        assert forall|k: int| 0 <= k < i + 1 implies #[trigger] out@.subrange(4 * k, 4 * k + 4)
            == rgba_pixel(*layout, data@, k) by {
            if k < i {
                assert(out@.subrange(4 * k, 4 * k + 4) =~= before.subrange(4 * k, 4 * k + 4));
            }
        }
        i = i + 1;
    }
    Ok(out)
}

// ---------------------------------------------------------------------------
// Skin layout
// ---------------------------------------------------------------------------

/// `w / 64` rounded toward zero, as Rust's integer division does.
pub open spec fn div64(w: int) -> int {
    if w >= 0 {
        w / 64
    } else {
        -((-w) / 64)
    }
}

/// Inputs on which `calc_skin_type` does no arithmetic overflow: doubling
/// the height fits, and for a square skin the probe pixel's index fits.
pub open spec fn skin_type_defined(width: i32, height: i32) -> bool {
    &&& i32::MIN <= 2 * height <= i32::MAX
    &&& (width == height && width >= 64) ==> 20 * div64(width as int) * width + 54 * div64(
        width as int,
    ) <= i32::MAX
}

/// The skin layout of a `width x height` image with pixels `pixels`
/// (`alpha_shift` locates the alpha channel), following ClassiCube's
/// `Utils_CalcSkinType` as far as telling 64x64 from slim: half height is
/// legacy; other non-square or empty images are invalid; a square image
/// whose probe pixel `(54 * scale, 20 * scale)` (scale = width / 64) is
/// mostly transparent is slim; every other square image is 64x64.
pub open spec fn skin_type_of(width: i32, height: i32, pixels: Seq<u32>, alpha_shift: u32) -> u8 {
    let scale = div64(width as int);
    let x = 54 * scale;
    let y = 20 * scale;
    let idx = y * width + x;
    if width == 2 * height {
        SKIN_64X32
    } else if width != height || width == 0 || scale == 0 {
        SKIN_INVALID
    } else if x < width && y < height && idx < pixels.len() && ((pixels[idx] >> alpha_shift)
        & 0xFFu32) < 128 {
        SKIN_64X64_SLIM
    } else {
        SKIN_64X64
    }
}

/// Replicate ClassiCube's `Utils_CalcSkinType` (the C function is not
/// exported). `pixels` must be row-major ARGB `BitmapCol` data
/// (`width * height` entries).
pub fn calc_skin_type(width: i32, height: i32, pixels: &[u32], alpha_shift: u32) -> (t: u8)
    requires
        skin_type_defined(width, height),
        alpha_shift < 32,
    ensures
        t == skin_type_of(width, height, pixels@, alpha_shift),
{
    // Legacy half-height layout (e.g. 64x32, 128x64).
    if width == height * 2 {
        return SKIN_64X32;
    }
    // Must be square for a 64x64-family skin.
    if width != height {
        return SKIN_INVALID;
    }
    if width == 0 {
        return SKIN_INVALID;
    }
    let scale: i32 = if width >= 0 {
        width / 64
    } else {
        -((-(width as i64) / 64) as i32)
    };
    assert(scale == div64(width as int));
    if scale == 0 {
        return SKIN_INVALID;
    }
    assert(-33554432 <= scale <= 33554431);
    // Alex (slim arms) skins have alpha == 0 at pixel (54*scale, 20*scale).
    let x: i32 = 54 * scale;
    let y: i32 = 20 * scale;
    if x < width && y < height {
        assert(scale > 0);
        assert(width >= 64);
        assert(y * width <= 20 * div64(width as int) * width) by (nonlinear_arith)
            requires
                y == 20 * div64(width as int),
        ;
        let idx: i32 = y * width + x;
        assert(0 <= y * width) by (nonlinear_arith)
            requires
                0 <= y,
                0 <= width,
        ;
        if (idx as usize) < pixels.len() {
            let alpha = (pixels[idx as usize] >> alpha_shift) & 0xFF;
            if alpha < 128 {
                return SKIN_64X64_SLIM;
            }
        }
    }
    // Further arm-region heuristics from ClassiCube would go here. For our
    // purposes (correct vScale selection) distinguishing 64x64 vs slim is
    // sufficient; we do the alpha check above and default to non-slim.
    SKIN_64X64
}

// ---------------------------------------------------------------------------
// Decoded skins and the kept pixel data
// ---------------------------------------------------------------------------

/// Decoded skin data, kept in memory between a context loss and the context
/// being recreated so the texture can be rebuilt without re-downloading.
pub struct SkinPixels {
    /// `BitmapCol` pixels, row-major, `width * height` entries.
    pub pixels: Vec<u32>,
    pub width: i32,
    pub height: i32,
    pub skin_type: u8,
}

/// Turn one decoded 8-bit frame into skin pixels: normalise to RGBA, repack
/// into `BitmapCol`s and classify the layout.
pub fn skin_pixels_from_frame(
    width: u32,
    height: u32,
    layout: &PixelLayout,
    data: &[u8],
    shifts: &ChannelShifts,
) -> (r: Result<SkinPixels, SkinError>)
    requires
        shifts_ok(*shifts),
        skin_type_defined(width as i32, height as i32),
    ensures
        *layout is Indexed <==> r is Err,
        r matches Ok(sp) ==> {
            &&& sp.width == width as i32
            &&& sp.height == height as i32
            &&& exists|rgba: Seq<u8>|
                #![trigger is_rgba_of(rgba, *layout, data@)]
                is_rgba_of(rgba, *layout, data@) && sp.pixels@.len() == rgba.len() / 4 && (forall|
                    i: int,
                |
                    0 <= i < sp.pixels@.len() ==> #[trigger] sp.pixels@[i] == packed(
                        rgba[4 * i],
                        rgba[4 * i + 1],
                        rgba[4 * i + 2],
                        rgba[4 * i + 3],
                        *shifts,
                    ))
            &&& sp.skin_type == skin_type_of(sp.width, sp.height, sp.pixels@, shifts.a)
        },
{
    let rgba = match normalize_to_rgba(layout, data) {
        Ok(v) => v,
        Err(e) => {
            return Err(e);
        },
    };
    let pixels = repack_rgba_to_bitmapcol(rgba.as_slice(), shifts);
    let w = width as i32;
    let h = height as i32;
    let skin_type = calc_skin_type(w, h, pixels.as_slice(), shifts.a);
    Ok(SkinPixels { pixels, width: w, height: h, skin_type })
}

/// The pixel data kept for rebuilding the pet's texture.
pub struct SkinCache {
    pixels: Option<SkinPixels>,
}

impl SkinCache {
    /// The kept pixel data, if any.
    pub closed spec fn kept(&self) -> Option<SkinPixels> {
        self.pixels
    }

    /// Whether pixel data is kept.
    pub open spec fn holds_pixels(&self) -> bool {
        self.kept() is Some
    }

    /// The kept skin layout, if any.
    pub open spec fn kept_skin_type(&self) -> Option<u8> {
        match self.kept() {
            Some(p) => Some(p.skin_type),
            None => None,
        }
    }

    /// Nothing kept.
    pub fn new() -> (c: SkinCache)
        ensures
            c.kept() is None,
    {
        SkinCache { pixels: None }
    }

    /// Keep freshly decoded pixels, replacing any earlier ones.
    pub fn store(&mut self, pixels: SkinPixels)
        ensures
            final(self).kept() == Some(pixels),
    {
        self.pixels = Some(pixels);
    }

    /// The kept pixels, to rebuild the texture from.
    pub fn pixels(&self) -> (r: Option<&SkinPixels>)
        ensures
            match r {
                Some(p) => self.kept() == Some(*p),
                None => self.kept() is None,
            },
    {
        self.pixels.as_ref()
    }

    /// The skin layout to give a rebuilt texture: the kept one, or 64x64
    /// when nothing is kept.
    pub fn rebuild_skin_type(&self) -> (t: u8)
        ensures
            t == match self.kept_skin_type() {
                Some(k) => k,
                None => SKIN_64X64,
            },
    {
        match &self.pixels {
            Some(p) => p.skin_type,
            None => SKIN_64X64,
        }
    }
}

/// Drop the kept pixel data (on free / reset: a full discard, not a context
/// cycle). The caller drops the GPU texture and resets the pet entity to the
/// model's built-in texture.
pub fn clear(cache: &mut SkinCache)
    ensures
        final(cache).kept() is None,
{
    cache.pixels = None;
}

// ---------------------------------------------------------------------------
// Decoded frames
// ---------------------------------------------------------------------------

/// The facts of a decoded PNG frame (8-bit samples) the skin code reads.
pub struct FrameInfo {
    pub width: u32,
    pub height: u32,
    pub layout: PixelLayout,
    /// Bytes per output row.
    pub line_size: usize,
}

/// `png::DecodingError`, carried through without looking inside.
#[verifier::external_type_specification]
#[verifier::external_body]
pub struct ExPngDecodingError(png::DecodingError);

/// Why downloaded bytes could not become skin pixels.
pub enum SkinDecodeError {
    /// The bytes are not a PNG the `png` crate can decode.
    Png(png::DecodingError),
    /// The decoder cannot size the frame buffer (too large for this machine).
    UnknownBufferSize,
    /// The decoder reported a frame larger than the buffer it filled.
    Truncated,
    /// The decoded samples could not be converted.
    Pixels(SkinError),
    /// The image is too large to classify without overflowing `i32`.
    TooLarge,
}

/// Name of what the `png` crate makes of `bytes` when asked for its first
/// frame expanded to 8-bit samples: `None` when decoding fails, else the
/// frame's facts and the buffer it filled.
pub uninterp spec fn png_first_frame(bytes: Seq<u8>) -> Option<(FrameInfo, Seq<u8>)>;

/// Decode the first frame of a PNG with the `png` crate: `Decoder::new` on
/// the bytes, `set_transformations(normalize_to_color8)` (palettes, low bit
/// depths and transparency chunks expanded, 16-bit samples stripped to 8),
/// `read_info`, `output_buffer_size`, and `next_frame` into a buffer of that
/// size. `Ok(None)` when `output_buffer_size` finds that the frame does not
/// fit this machine's address space.
///
/// Trusted: a decoding error or a decoded frame is `png_first_frame(bytes)`
/// (decoding reads nothing but the bytes), with the decoder's error carried
/// through. With these transformations the output has 8-bit samples and is
/// never a palette, so a row holds `width` times the layout's samples per
/// pixel (`output_color_type` and `raw_row_length_from_width` in its
/// source). Whether the frame fits the address space depends on the
/// machine, so nothing is stated of `Ok(None)`; nor which bytes decode or
/// what the pixels are.
#[verifier::external_body]
fn decode_png_frame(bytes: &[u8]) -> (r: Result<Option<(FrameInfo, Vec<u8>)>, png::DecodingError>)
    ensures
        r is Err ==> png_first_frame(bytes@) is None,
        r matches Ok(Some((info, buf))) ==> png_first_frame(bytes@) == Some((info, buf@)),
        r matches Ok(Some((info, buf))) ==> !(info.layout is Indexed) && info.line_size
            == info.width * layout_width(info.layout),
{
    let mut decoder = png::Decoder::new(std::io::Cursor::new(bytes));
    decoder.set_transformations(png::Transformations::normalize_to_color8());
    let mut reader = decoder.read_info()?;
    let Some(size) = reader.output_buffer_size() else { return Ok(None) };
    let mut buf = vec![0u8; size];
    let info = reader.next_frame(&mut buf)?;
    let layout = match info.color_type {
        png::ColorType::Grayscale => PixelLayout::Grayscale,
        png::ColorType::Rgb => PixelLayout::Rgb,
        png::ColorType::Indexed => PixelLayout::Indexed,
        png::ColorType::GrayscaleAlpha => PixelLayout::GrayscaleAlpha,
        png::ColorType::Rgba => PixelLayout::Rgba,
    };
    Ok(Some((FrameInfo { width: info.width, height: info.height, layout, line_size: info.line_size }, buf)))
}

/// `r` is what a decoded frame `info` whose bytes are `frame` becomes:
/// refused as too large when its dimensions cannot be classified, refused
/// when its samples are an unexpanded palette, and otherwise skin pixels of
/// its size, packed pixel by pixel from the frame converted to RGBA, with
/// their layout classified.
pub open spec fn frame_outcome(
    info: FrameInfo,
    frame: Seq<u8>,
    shifts: ChannelShifts,
    r: Result<SkinPixels, SkinDecodeError>,
) -> bool {
    &&& !skin_type_defined(info.width as i32, info.height as i32) ==> (r matches Err(
        SkinDecodeError::TooLarge,
    ))
    &&& skin_type_defined(info.width as i32, info.height as i32) ==> (info.layout is Indexed
        <==> r is Err)
    &&& skin_type_defined(info.width as i32, info.height as i32) ==> (r is Err ==> (r matches Err(
        SkinDecodeError::Pixels(SkinError::IndexedNotExpanded),
    )))
    &&& (r matches Ok(sp) ==> {
        &&& sp.width == info.width as i32
        &&& sp.height == info.height as i32
        &&& exists|rgba: Seq<u8>|
            #![trigger is_rgba_of(rgba, info.layout, frame)]
            is_rgba_of(rgba, info.layout, frame) && sp.pixels@.len() == rgba.len() / 4 && (forall|
                i: int,
            |
                0 <= i < sp.pixels@.len() ==> #[trigger] sp.pixels@[i] == packed(
                    rgba[4 * i],
                    rgba[4 * i + 1],
                    rgba[4 * i + 2],
                    rgba[4 * i + 3],
                    shifts,
                ))
        &&& sp.skin_type == skin_type_of(sp.width, sp.height, sp.pixels@, shifts.a)
    })
}

/// Turn a decoded frame into skin pixels: the frame's bytes are the first
/// `line_size * height` bytes of `buf`; they are converted with
/// [`skin_pixels_from_frame`] once the dimensions are known to be small
/// enough to classify.
pub fn skin_from_decoded_frame(info: &FrameInfo, buf: &[u8], shifts: &ChannelShifts) -> (r: Result<
    SkinPixels,
    SkinDecodeError,
>)
    requires
        shifts_ok(*shifts),
        info.line_size * info.height <= buf@.len(),
    ensures
        frame_outcome(*info, buf@.take(info.line_size * info.height), *shifts, r),
{
    let buf_len: usize = buf.len();
    assert(info.line_size * info.height <= buf_len);
    let frame_len: usize = info.line_size * (info.height as usize);
    let data = &buf[0..frame_len];
    assert(data@ =~= buf@.take(info.line_size * info.height));
    if !skin_type_in_range(info.width, info.height) {
        return Err(SkinDecodeError::TooLarge);
    }
    match skin_pixels_from_frame(info.width, info.height, &info.layout, data, shifts) {
        Ok(sp) => Ok(sp),
        Err(e) => Err(SkinDecodeError::Pixels(e)),
    }
}

/// Decode downloaded PNG bytes into skin pixels: the `png` crate decodes the
/// first frame, then [`skin_from_decoded_frame`] converts it when the frame
/// fits the buffer the decoder filled. Apart from a frame too large for this
/// machine's address space (`UnknownBufferSize`), the result follows from
/// what the bytes decode to.
pub fn decode_skin(png_bytes: &[u8], shifts: &ChannelShifts) -> (r: Result<
    SkinPixels,
    SkinDecodeError,
>)
    requires
        shifts_ok(*shifts),
    ensures
        r matches Err(SkinDecodeError::Png(_)) ==> png_first_frame(png_bytes@) is None,
        !(r matches Err(SkinDecodeError::UnknownBufferSize)) ==> match png_first_frame(
            png_bytes@,
        ) {
            None => r matches Err(SkinDecodeError::Png(_)),
            Some((info, buf)) => if info.line_size * info.height > buf.len() {
                r matches Err(SkinDecodeError::Truncated)
            } else {
                frame_outcome(info, buf.take(info.line_size * info.height), *shifts, r)
            },
        },
        r matches Ok(sp) ==> (png_first_frame(png_bytes@) matches Some((info, _)) && sp.pixels@.len()
            == info.width * info.height),
{
    match decode_png_frame(png_bytes) {
        Err(e) => Err(SkinDecodeError::Png(e)),
        Ok(None) => Err(SkinDecodeError::UnknownBufferSize),
        Ok(Some((info, buf))) => {
            let buf_len = buf.len();
            let fits = match info.line_size.checked_mul(info.height as usize) {
                Some(n) => n <= buf_len,
                None => false,
            };
            assert(fits == (info.line_size * info.height <= buf@.len()));
            if fits {
                let r = skin_from_decoded_frame(&info, buf.as_slice(), shifts);
                proof {
                    if r is Ok {
                        let sp = r->Ok_0;
                        let frame = buf@.take(info.line_size * info.height);
                        let rgba = choose|rgba: Seq<u8>|
                            #![trigger is_rgba_of(rgba, info.layout, frame)]
                            is_rgba_of(rgba, info.layout, frame) && sp.pixels@.len() == rgba.len()
                                / 4 && (forall|i: int|
                                0 <= i < sp.pixels@.len() ==> #[trigger] sp.pixels@[i] == packed(
                                    rgba[4 * i],
                                    rgba[4 * i + 1],
                                    rgba[4 * i + 2],
                                    rgba[4 * i + 3],
                                    *shifts,
                                ));
                        let lw = layout_width(info.layout);
                        let w = info.width as int;
                        let h = info.height as int;
                        assert(frame.len() == w * lw * h) by (nonlinear_arith)
                            requires
                                frame.len() == info.line_size * info.height,
                                info.line_size == w * lw,
                                h == info.height,
                        ;
                        assert(1 <= lw <= 4);
                        assert((frame.len() as int) / lw == w * h) by (nonlinear_arith)
                            requires
                                frame.len() == w * lw * h,
                                1 <= lw,
                        ;
                        assert(rgba.len() / 4 == w * h);
                    }
                }
                r
            } else {
                Err(SkinDecodeError::Truncated)
            }
        },
    }
}

/// Whether a decoded frame's dimensions meet `skin_type_defined`.
pub fn skin_type_in_range(width: u32, height: u32) -> (r: bool)
    ensures
        r == skin_type_defined(width as i32, height as i32),
{
    let w = width as i32;
    let h = height as i32;
    let h2: i64 = 2 * (h as i64);
    if h2 < i32::MIN as i64 || h2 > i32::MAX as i64 {
        return false;
    }
    if w == h && w >= 64 {
        let s: i64 = (w / 64) as i64;
        assert(s == div64(w as int));
        assert(0 < s <= 33554431);
        let wi: i64 = w as i64;
        assert(20 * s * wi <= 20 * 33554431 * 2147483647) by (nonlinear_arith)
            requires
                0 < s <= 33554431,
                0 < wi <= 2147483647,
        ;
        assert(20 * s * wi >= 0) by (nonlinear_arith)
            requires
                0 < s,
                0 < wi,
        ;
        let probe: i64 = 20 * s * wi + 54 * s;
        probe <= i32::MAX as i64
    } else {
        true
    }
}

// ---------------------------------------------------------------------------
// Laws
// ---------------------------------------------------------------------------

/// Each pixel of a converted frame is built from its own bytes of the input:
/// pixel `i` of a layout with `n` bytes per pixel comes from bytes
/// `n * i .. n * i + n`, grey is copied into red, green and blue, and a
/// layout without alpha is opaque. There is one output pixel per whole
/// input pixel.
pub proof fn law_rgba_pixels_come_from_their_own_bytes(
    out: Seq<u8>,
    layout: PixelLayout,
    data: Seq<u8>,
)
    requires
        !(layout is Indexed),
        is_rgba_of(out, layout, data),
    ensures
        layout is Grayscale ==> out.len() == 4 * (data.len() as int / 1) && forall|i: int|
            #![trigger out[4 * i]]
            0 <= i < data.len() ==> out[4 * i] == data[i] && out[4 * i + 1] == data[i] && out[4
                * i + 2] == data[i] && out[4 * i + 3] == 255,
        layout is Rgb ==> out.len() == 4 * (data.len() as int / 3) && forall|i: int|
            #![trigger out[4 * i]]
            0 <= i < data.len() as int / 3 ==> out[4 * i] == data[3 * i] && out[4 * i + 1] == data[3
                * i + 1] && out[4 * i + 2] == data[3 * i + 2] && out[4 * i + 3] == 255,
        layout is GrayscaleAlpha ==> out.len() == 4 * (data.len() as int / 2) && forall|i: int|
            #![trigger out[4 * i]]
            0 <= i < data.len() as int / 2 ==> out[4 * i] == data[2 * i] && out[4 * i + 1] == data[2
                * i] && out[4 * i + 2] == data[2 * i] && out[4 * i + 3] == data[2 * i + 1],
        layout is Rgba ==> out.len() == 4 * (data.len() as int / 4) && forall|i: int|
            #![trigger out[4 * i]]
            0 <= i < data.len() as int / 4 ==> out[4 * i] == data[4 * i] && out[4 * i + 1] == data[4
                * i + 1] && out[4 * i + 2] == data[4 * i + 2] && out[4 * i + 3] == data[4 * i + 3],
{
    let n = (data.len() as int) / layout_width(layout);
    assert forall|i: int| 0 <= i < n implies #[trigger] out[4 * i] == rgba_pixel(layout, data, i)[0]
        && out[4 * i + 1] == rgba_pixel(layout, data, i)[1] && out[4 * i + 2] == rgba_pixel(
        layout,
        data,
        i,
    )[2] && out[4 * i + 3] == rgba_pixel(layout, data, i)[3] by {
        assert(out.subrange(4 * i, 4 * i + 4) == rgba_pixel(layout, data, i));
        assert(out[4 * i] == out.subrange(4 * i, 4 * i + 4)[0]);
        assert(out[4 * i + 1] == out.subrange(4 * i, 4 * i + 4)[1]);
        assert(out[4 * i + 2] == out.subrange(4 * i, 4 * i + 4)[2]);
        assert(out[4 * i + 3] == out.subrange(4 * i, 4 * i + 4)[3]);
    }
    if layout is Grayscale {
        assert(n == data.len());
        assert forall|i: int| 0 <= i < data.len() implies #[trigger] out[4 * i] == data[i] && out[4
            * i + 1] == data[i] && out[4 * i + 2] == data[i] && out[4 * i + 3] == 255 by {
            assert(out[4 * i] == rgba_pixel(layout, data, i)[0]);
            assert(rgba_pixel(layout, data, i) == seq![data[i], data[i], data[i], 255u8]);
        }
    }
    if layout is Rgb {
        assert forall|i: int| 0 <= i < data.len() as int / 3 implies #[trigger] out[4 * i] == data[3
            * i] && out[4 * i + 1] == data[3 * i + 1] && out[4 * i + 2] == data[3 * i + 2] && out[4
            * i + 3] == 255 by {
            assert(out[4 * i] == rgba_pixel(layout, data, i)[0]);
            assert(rgba_pixel(layout, data, i) == seq![
                data[3 * i],
                data[3 * i + 1],
                data[3 * i + 2],
                255u8,
            ]);
        }
    }
    if layout is GrayscaleAlpha {
        assert forall|i: int| 0 <= i < data.len() as int / 2 implies #[trigger] out[4 * i] == data[2
            * i] && out[4 * i + 1] == data[2 * i] && out[4 * i + 2] == data[2 * i] && out[4 * i + 3]
            == data[2 * i + 1] by {
            assert(out[4 * i] == rgba_pixel(layout, data, i)[0]);
            assert(rgba_pixel(layout, data, i) == seq![
                data[2 * i],
                data[2 * i],
                data[2 * i],
                data[2 * i + 1],
            ]);
        }
    }
    if layout is Rgba {
        assert forall|i: int| 0 <= i < data.len() as int / 4 implies #[trigger] out[4 * i] == data[4
            * i] && out[4 * i + 1] == data[4 * i + 1] && out[4 * i + 2] == data[4 * i + 2] && out[4
            * i + 3] == data[4 * i + 3] by {
            assert(out[4 * i] == rgba_pixel(layout, data, i)[0]);
            assert(rgba_pixel(layout, data, i) == seq![
                data[4 * i],
                data[4 * i + 1],
                data[4 * i + 2],
                data[4 * i + 3],
            ]);
        }
    }
}

/// The slim-arm probe scales with the skin: a square skin of width
/// `w >= 64` is slim exactly when the pixel at
/// `(54 * (w / 64), 20 * (w / 64))` is mostly transparent, and 64x64
/// otherwise; so a 128x128 skin is probed at `(108, 40)`.
pub proof fn law_slim_probe_scales_with_width(w: i32, pixels: Seq<u32>, alpha_shift: u32)
    requires
        64 <= w,
        pixels.len() == w * w,
    ensures
        skin_type_of(w, w, pixels, alpha_shift) == (if ((pixels[20 * (w / 64) * w + 54 * (w
            / 64)] >> alpha_shift) & 0xFFu32) < 128 {
            SKIN_64X64_SLIM
        } else {
            SKIN_64X64
        }),
{
    let s = w / 64;
    assert(div64(w as int) == s);
    assert(1 <= s);
    assert(64 * s <= w) by (nonlinear_arith)
        requires
            s == w / 64,
            w >= 64,
    ;
    assert(54 * s < w);
    assert(20 * s < w);
    assert(20 * s * w + 54 * s < w * w) by (nonlinear_arith)
        requires
            64 * s <= w,
            1 <= s,
    ;
    assert(0 <= 20 * s * w) by (nonlinear_arith)
        requires
            1 <= s,
            w >= 64,
    ;
}

} // verus!
