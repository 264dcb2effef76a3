use classicube_pet_plugin::skin::{
    calc_skin_type, clear, decode_skin, normalize_to_rgba, repack_rgba_to_bitmapcol,
    skin_from_decoded_frame,
    skin_pixels_from_frame, skin_type_in_range, skin_url, ChannelShifts, FrameInfo, PixelLayout,
    SkinCache, SkinDecodeError, SKIN_64X32, SKIN_64X64, SKIN_64X64_SLIM, SKIN_INVALID,
};

/// The channel layout ClassiCube uses on most platforms (`0xAARRGGBB`).
const BITMAPCOLOR_R_SHIFT: u32 = 16;
const BITMAPCOLOR_G_SHIFT: u32 = 8;
const BITMAPCOLOR_B_SHIFT: u32 = 0;
const BITMAPCOLOR_A_SHIFT: u32 = 24;

fn shifts() -> ChannelShifts {
    ChannelShifts {
        r: BITMAPCOLOR_R_SHIFT,
        g: BITMAPCOLOR_G_SHIFT,
        b: BITMAPCOLOR_B_SHIFT,
        a: BITMAPCOLOR_A_SHIFT,
    }
}

#[test]
fn skin_url_bare_name() {
    assert_eq!(
        skin_url("SpiralP"),
        "http://cdn.classicube.net/skin/SpiralP.png"
    );
}

#[test]
fn skin_url_http_passthrough() {
    assert_eq!(
        skin_url("http://example.com/skin.png"),
        "http://example.com/skin.png"
    );
}

#[test]
fn skin_url_https_passthrough() {
    assert_eq!(
        skin_url("https://example.com/skin.png"),
        "https://example.com/skin.png"
    );
}

#[test]
fn skin_url_prefix_must_be_exact() {
    assert_eq!(skin_url("HTTP://x"), "http://cdn.classicube.net/skin/HTTP://x.png");
    assert_eq!(skin_url(""), "http://cdn.classicube.net/skin/.png");
}

#[test]
fn repack_rgba_to_bitmapcol_channels() {
    // RGBA (255, 0, 0, 128): r in R slot, a in A slot
    let rgba = [255u8, 0, 0, 128];
    let expected = (128_u32 << BITMAPCOLOR_A_SHIFT) | (255_u32 << BITMAPCOLOR_R_SHIFT);
    let result = repack_rgba_to_bitmapcol(&rgba, &shifts());
    assert_eq!(result, vec![expected]);
}

#[test]
fn repack_rgba_to_bitmapcol_green_alpha() {
    // RGBA (0, 200, 0, 255): g in G slot, a in A slot
    let rgba = [0u8, 200, 0, 255];
    let expected = (255_u32 << BITMAPCOLOR_A_SHIFT) | (200_u32 << BITMAPCOLOR_G_SHIFT);
    let result = repack_rgba_to_bitmapcol(&rgba, &shifts());
    assert_eq!(result, vec![expected]);
}

#[test]
fn repack_rgba_drops_partial_pixel() {
    let rgba = [1u8, 2, 3, 4, 5, 6];
    assert_eq!(repack_rgba_to_bitmapcol(&rgba, &shifts()), vec![0x04010203]);
}

#[test]
fn calc_skin_type_legacy_64x32() {
    // width == height * 2 -> SKIN_64x32
    assert_eq!(calc_skin_type(64, 32, &[0u32; 64 * 32], BITMAPCOLOR_A_SHIFT), SKIN_64X32);
    assert_eq!(calc_skin_type(128, 64, &[0u32; 128 * 64], BITMAPCOLOR_A_SHIFT), SKIN_64X32);
}

#[test]
fn calc_skin_type_non_square_invalid() {
    // width != height and not 2:1 -> SKIN_INVALID
    assert_eq!(calc_skin_type(100, 64, &[0u32; 100 * 64], BITMAPCOLOR_A_SHIFT), SKIN_INVALID);
}

#[test]
fn calc_skin_type_64x64_opaque_alex_pixel() {
    // 64x64 with opaque alpha at (54,20) -> not slim -> SKIN_64x64
    let opaque = 0xFF_u32 << BITMAPCOLOR_A_SHIFT;
    let mut pixels = vec![opaque; 64 * 64];
    let idx = 20 * 64 + 54;
    pixels[idx] = opaque; // alpha = 255 -> not slim
    assert_eq!(calc_skin_type(64, 64, &pixels, BITMAPCOLOR_A_SHIFT), SKIN_64X64);
}

#[test]
fn calc_skin_type_64x64_slim_transparent_alex_pixel() {
    // 64x64 with transparent alpha at (54,20) -> slim -> SKIN_64x64_SLIM
    let opaque = 0xFF_u32 << BITMAPCOLOR_A_SHIFT;
    let mut pixels = vec![opaque; 64 * 64];
    let idx = 20 * 64 + 54;
    pixels[idx] = 0x00000000; // alpha = 0 -> slim
    assert_eq!(calc_skin_type(64, 64, &pixels, BITMAPCOLOR_A_SHIFT), SKIN_64X64_SLIM);
}

#[test]
fn calc_skin_type_small_or_empty_square_invalid() {
    assert_eq!(calc_skin_type(0, 0, &[], BITMAPCOLOR_A_SHIFT), SKIN_64X32);
    assert_eq!(calc_skin_type(32, 32, &[0u32; 32 * 32], BITMAPCOLOR_A_SHIFT), SKIN_INVALID);
}

#[test]
fn calc_skin_type_short_pixel_buffer_is_not_slim() {
    assert_eq!(calc_skin_type(64, 64, &[0u32; 10], BITMAPCOLOR_A_SHIFT), SKIN_64X64);
}

#[test]
fn normalize_to_rgba_expands_each_layout() {
    let ok = |l: PixelLayout, d: &[u8]| match normalize_to_rgba(&l, d) {
        Ok(v) => v,
        Err(_) => panic!("layout should convert"),
    };
    assert_eq!(ok(PixelLayout::Grayscale, &[7]), vec![7, 7, 7, 255]);
    assert_eq!(ok(PixelLayout::GrayscaleAlpha, &[7, 9]), vec![7, 7, 7, 9]);
    assert_eq!(ok(PixelLayout::Rgb, &[1, 2, 3, 4]), vec![1, 2, 3, 255]);
    assert_eq!(ok(PixelLayout::Rgba, &[1, 2, 3, 4]), vec![1, 2, 3, 4]);
    assert!(normalize_to_rgba(&PixelLayout::Indexed, &[1, 2]).is_err());
}

#[test]
fn skin_pixels_from_frame_classifies_the_result() {
    let data = vec![255u8; 64 * 64 * 4];
    let sp = match skin_pixels_from_frame(64, 64, &PixelLayout::Rgba, &data, &shifts()) {
        Ok(sp) => sp,
        Err(_) => panic!("rgba converts"),
    };
    assert_eq!(sp.pixels.len(), 64 * 64);
    assert_eq!(sp.skin_type, SKIN_64X64);
    assert_eq!((sp.width, sp.height), (64, 64));
}

#[test]
fn skin_from_decoded_frame_uses_only_the_frame_bytes() {
    let info = FrameInfo { width: 1, height: 2, layout: PixelLayout::Grayscale, line_size: 1 };
    let buf = [10u8, 20, 30, 40];
    match skin_from_decoded_frame(&info, &buf, &shifts()) {
        Ok(sp) => {
            assert_eq!(sp.pixels, vec![0xFF0A0A0A, 0xFF141414]);
            assert_eq!(sp.skin_type, SKIN_INVALID);
        }
        Err(_) => panic!("grayscale converts"),
    }
    let huge = FrameInfo { width: 100_000, height: 100_000, layout: PixelLayout::Rgba, line_size: 0 };
    assert!(!skin_type_in_range(100_000, 100_000));
    assert!(matches!(skin_from_decoded_frame(&huge, &buf, &shifts()), Err(SkinDecodeError::TooLarge)));
}

#[test]
fn skin_cache_keeps_and_clears_pixels() {
    let mut cache = SkinCache::new();
    assert!(cache.pixels().is_none());
    assert_eq!(cache.rebuild_skin_type(), SKIN_64X64);
    let data = vec![0u8; 64 * 64 * 4];
    let sp = match skin_pixels_from_frame(64, 64, &PixelLayout::Rgba, &data, &shifts()) {
        Ok(sp) => sp,
        Err(_) => panic!("rgba converts"),
    };
    let kept_pixels = sp.pixels.clone();
    cache.store(sp);
    assert_eq!(cache.rebuild_skin_type(), SKIN_64X64_SLIM);
    match cache.pixels() {
        Some(p) => {
            assert_eq!(p.pixels, kept_pixels);
            assert_eq!((p.width, p.height, p.skin_type), (64, 64, SKIN_64X64_SLIM));
        }
        None => panic!("the stored pixels are kept"),
    }
    clear(&mut cache);
    assert!(cache.pixels().is_none());
}

// -- decoding downloaded PNG bytes ------------------------------------------------

fn encode_png(width: u32, height: u32, color: png::ColorType, depth: png::BitDepth, palette: Option<Vec<u8>>, data: &[u8]) -> Vec<u8> {
    let mut out = Vec::new();
    {
        let mut enc = png::Encoder::new(&mut out, width, height);
        enc.set_color(color);
        enc.set_depth(depth);
        if let Some(p) = palette {
            enc.set_palette(p);
        }
        let mut writer = enc.write_header().expect("header");
        writer.write_image_data(data).expect("image data");
        writer.finish().expect("finish");
    }
    out
}

#[test]
fn decode_skin_rgb_half_height() {
    let bytes = encode_png(2, 1, png::ColorType::Rgb, png::BitDepth::Eight, None, &[1, 2, 3, 4, 5, 6]);
    match decode_skin(&bytes, &shifts()) {
        Ok(sp) => {
            assert_eq!((sp.width, sp.height), (2, 1));
            assert_eq!(sp.pixels, vec![0xFF010203, 0xFF040506]);
            assert_eq!(sp.skin_type, SKIN_64X32);
        }
        Err(_) => panic!("an RGB PNG decodes"),
    }
}

#[test]
fn decode_skin_square_rgba_detects_slim_arms() {
    let mut data = vec![255u8; 64 * 64 * 4];
    data[(20 * 64 + 54) * 4 + 3] = 0; // transparent probe pixel
    let bytes = encode_png(64, 64, png::ColorType::Rgba, png::BitDepth::Eight, None, &data);
    match decode_skin(&bytes, &shifts()) {
        Ok(sp) => {
            assert_eq!(sp.pixels.len(), 64 * 64);
            assert_eq!(sp.pixels[0], 0xFFFFFFFF);
            assert_eq!(sp.skin_type, SKIN_64X64_SLIM);
        }
        Err(_) => panic!("an RGBA PNG decodes"),
    }
}

#[test]
fn decode_skin_expands_palettes_and_wide_samples() {
    let bytes = encode_png(1, 1, png::ColorType::Indexed, png::BitDepth::Eight, Some(vec![9, 8, 7]), &[0]);
    match decode_skin(&bytes, &shifts()) {
        Ok(sp) => assert_eq!(sp.pixels, vec![0xFF090807]),
        Err(_) => panic!("a palette PNG decodes"),
    }
    let bytes = encode_png(1, 1, png::ColorType::Grayscale, png::BitDepth::Sixteen, None, &[0xAB, 0xCD]);
    match decode_skin(&bytes, &shifts()) {
        Ok(sp) => assert_eq!(sp.pixels, vec![0xFFABABAB]),
        Err(_) => panic!("a 16-bit PNG decodes"),
    }
}

#[test]
fn decode_skin_refuses_non_png_bytes() {
    assert!(matches!(decode_skin(b"not a png", &shifts()), Err(SkinDecodeError::Png(_))));
    assert!(matches!(decode_skin(&[], &shifts()), Err(SkinDecodeError::Png(_))));
}
