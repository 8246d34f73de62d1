use std::cell::Cell;
use texture_pipeline::image::{DecodeError, Extent, TextureFormat};
use texture_pipeline::loader::{
    assemble, decode, finish, select_codec, CompiledFormats, DecodedPixels, ImageFormat,
    PixelLayout,
};

fn pixels(width: u32, height: u32, layout: PixelLayout, data: Vec<u8>) -> DecodedPixels {
    DecodedPixels { width, height, layout, data }
}

#[test]
fn extensions_name_their_formats() {
    assert_eq!(ImageFormat::from_hint("png"), Some(ImageFormat::Png));
    assert_eq!(ImageFormat::from_hint("dds"), Some(ImageFormat::Dds));
    assert_eq!(ImageFormat::from_hint("tga"), Some(ImageFormat::Tga));
    assert_eq!(ImageFormat::from_hint("jpg"), Some(ImageFormat::Jpeg));
    assert_eq!(ImageFormat::from_hint("jpeg"), Some(ImageFormat::Jpeg));
    assert_eq!(ImageFormat::from_hint("bmp"), Some(ImageFormat::Bmp));
    assert_eq!(ImageFormat::from_hint("ktx2"), Some(ImageFormat::Ktx2));
    assert_eq!(ImageFormat::from_hint("basis"), Some(ImageFormat::Basis));
    assert_eq!(ImageFormat::from_hint("hdr"), Some(ImageFormat::Hdr));
}

#[test]
fn mime_types_name_their_formats() {
    assert_eq!(ImageFormat::from_hint("image/png"), Some(ImageFormat::Png));
    assert_eq!(ImageFormat::from_hint("image/vnd-ms.dds"), Some(ImageFormat::Dds));
    assert_eq!(ImageFormat::from_hint("image/x-targa"), Some(ImageFormat::Tga));
    assert_eq!(ImageFormat::from_hint("image/x-tga"), Some(ImageFormat::Tga));
    assert_eq!(ImageFormat::from_hint("image/jpeg"), Some(ImageFormat::Jpeg));
    assert_eq!(ImageFormat::from_hint("image/bmp"), Some(ImageFormat::Bmp));
    assert_eq!(ImageFormat::from_hint("image/x-bmp"), Some(ImageFormat::Bmp));
    assert_eq!(ImageFormat::from_hint("image/ktx2"), Some(ImageFormat::Ktx2));
    assert_eq!(ImageFormat::from_hint("image/vnd.radiance"), Some(ImageFormat::Hdr));
}

#[test]
fn other_hints_name_nothing() {
    assert_eq!(ImageFormat::from_hint(""), None);
    assert_eq!(ImageFormat::from_hint("gif"), None);
    assert_eq!(ImageFormat::from_hint("PNG"), None);
    assert_eq!(ImageFormat::from_hint(".png"), None);
    assert_eq!(ImageFormat::from_hint("pn"), None);
    assert_eq!(ImageFormat::from_hint("pngs"), None);
    assert_eq!(ImageFormat::from_hint("image/gif"), None);
}

#[test]
fn compiled_formats_all_and_none() {
    let all = CompiledFormats::all();
    let none = CompiledFormats::none();
    for format in [
        ImageFormat::Png,
        ImageFormat::Dds,
        ImageFormat::Tga,
        ImageFormat::Jpeg,
        ImageFormat::Bmp,
        ImageFormat::Ktx2,
        ImageFormat::Basis,
        ImageFormat::Hdr,
    ] {
        assert!(all.supports(format));
        assert!(!none.supports(format));
    }
    let only_png = CompiledFormats { png: true, ..CompiledFormats::none() };
    assert!(only_png.supports(ImageFormat::Png));
    assert!(!only_png.supports(ImageFormat::Jpeg));
}

#[test]
fn unknown_hint_is_unsupported_format() {
    let r = select_codec(&[1, 2, 3], "gif", &CompiledFormats::all());
    assert_eq!(r, Err(DecodeError::UnsupportedFormat));
}

#[test]
fn codec_that_is_not_compiled_in_is_unsupported_format() {
    let only_png = CompiledFormats { png: true, ..CompiledFormats::none() };
    assert_eq!(select_codec(&[1], "jpeg", &only_png), Err(DecodeError::UnsupportedFormat));
    assert_eq!(select_codec(&[1], "png", &only_png), Ok(ImageFormat::Png));
}

#[test]
fn no_bytes_is_corrupt_data() {
    let r = select_codec(&[], "png", &CompiledFormats::all());
    assert_eq!(r, Err(DecodeError::CorruptData));
}

#[test]
fn unknown_hint_wins_over_missing_bytes() {
    let r = select_codec(&[], "gif", &CompiledFormats::all());
    assert_eq!(r, Err(DecodeError::UnsupportedFormat));
}

#[test]
fn layouts_map_to_texture_formats() {
    assert_eq!(PixelLayout::Luma8.format(true), Some(TextureFormat::R8Unorm));
    assert_eq!(PixelLayout::LumaAlpha8.format(true), Some(TextureFormat::Rg8Unorm));
    assert_eq!(PixelLayout::Rgb8.format(true), Some(TextureFormat::Rgba8UnormSrgb));
    assert_eq!(PixelLayout::Rgb8.format(false), Some(TextureFormat::Rgba8Unorm));
    assert_eq!(PixelLayout::Rgba8.format(true), Some(TextureFormat::Rgba8UnormSrgb));
    assert_eq!(PixelLayout::Rgba8.format(false), Some(TextureFormat::Rgba8Unorm));
    assert_eq!(PixelLayout::Luma16.format(true), Some(TextureFormat::R16Unorm));
    assert_eq!(PixelLayout::LumaAlpha16.format(false), Some(TextureFormat::Rg16Unorm));
    assert_eq!(PixelLayout::Rgba16.format(true), Some(TextureFormat::Rgba16Unorm));
    assert_eq!(PixelLayout::Indexed8.format(true), None);
}

#[test]
fn rgba8_pixels_become_an_image_as_they_are() {
    let data: Vec<u8> = (0u8..16).collect();
    let image = assemble(pixels(2, 2, PixelLayout::Rgba8, data.clone()), true).unwrap();
    assert_eq!(image.data(), &data);
    assert_eq!(image.extent(), Extent { width: 2, height: 2 });
    assert_eq!(image.descriptor().format, TextureFormat::Rgba8UnormSrgb);
    assert_eq!(image.descriptor().mip_count, 1);
    assert_eq!(image.descriptor().sample_count, 1);
    assert_eq!(image.sampler(), None);
}

#[test]
fn linear_rgba8_is_not_marked_srgb() {
    let image = assemble(pixels(1, 1, PixelLayout::Rgba8, vec![1, 2, 3, 4]), false).unwrap();
    assert_eq!(image.descriptor().format, TextureFormat::Rgba8Unorm);
}

#[test]
fn rgb8_pixels_get_an_opaque_alpha_channel() {
    let image = assemble(pixels(2, 1, PixelLayout::Rgb8, vec![1, 2, 3, 4, 5, 6]), true).unwrap();
    assert_eq!(image.data(), &vec![1u8, 2, 3, 255, 4, 5, 6, 255]);
    assert_eq!(image.byte_len(), 8);
    assert_eq!(image.descriptor().format, TextureFormat::Rgba8UnormSrgb);
    assert_eq!(image.extent(), Extent { width: 2, height: 1 });
}

#[test]
fn rgb8_with_wrong_length_is_invalid_dimensions() {
    let r = assemble(pixels(2, 1, PixelLayout::Rgb8, vec![1, 2, 3, 4, 5]), true);
    assert_eq!(r.err(), Some(DecodeError::InvalidDimensions));
    let r = assemble(pixels(2, 1, PixelLayout::Rgb8, vec![0; 8]), true);
    assert_eq!(r.err(), Some(DecodeError::InvalidDimensions));
}

#[test]
fn sixteen_bit_layouts_keep_their_bytes() {
    let image = assemble(pixels(1, 2, PixelLayout::Luma16, vec![1, 2, 3, 4]), true).unwrap();
    assert_eq!(image.descriptor().format, TextureFormat::R16Unorm);
    assert_eq!(image.data(), &vec![1u8, 2, 3, 4]);
    let image = assemble(pixels(1, 1, PixelLayout::Rgba16, vec![0; 8]), true).unwrap();
    assert_eq!(image.descriptor().format, TextureFormat::Rgba16Unorm);
}

#[test]
fn palette_pixels_are_unsupported_format() {
    let r = assemble(pixels(2, 2, PixelLayout::Indexed8, vec![0; 4]), true);
    assert_eq!(r.err(), Some(DecodeError::UnsupportedFormat));
}

#[test]
fn unsupported_layout_wins_over_zero_size() {
    let r = assemble(pixels(0, 0, PixelLayout::Indexed8, Vec::new()), true);
    assert_eq!(r.err(), Some(DecodeError::UnsupportedFormat));
}

#[test]
fn zero_sized_pixels_are_invalid_dimensions() {
    let r = assemble(pixels(0, 3, PixelLayout::Rgba8, Vec::new()), true);
    assert_eq!(r.err(), Some(DecodeError::InvalidDimensions));
    let r = assemble(pixels(3, 0, PixelLayout::Rgb8, Vec::new()), true);
    assert_eq!(r.err(), Some(DecodeError::InvalidDimensions));
}

#[test]
fn pixels_of_the_wrong_length_are_invalid_dimensions() {
    let r = assemble(pixels(2, 2, PixelLayout::Rgba8, vec![0; 15]), true);
    assert_eq!(r.err(), Some(DecodeError::InvalidDimensions));
    let r = assemble(pixels(2, 2, PixelLayout::Luma8, vec![0; 5]), true);
    assert_eq!(r.err(), Some(DecodeError::InvalidDimensions));
}

#[test]
fn codec_that_gives_up_is_corrupt_data() {
    assert_eq!(finish(None, true).err(), Some(DecodeError::CorruptData));
    let r = decode(&[1, 2, 3], "png", true, &CompiledFormats::all(), |_, _| None);
    assert_eq!(r.err(), Some(DecodeError::CorruptData));
}

#[test]
fn decode_hands_format_and_bytes_to_the_codec() {
    let seen = Cell::new(None);
    let r = decode(&[10, 20, 30], "image/jpeg", false, &CompiledFormats::all(), |format, bytes| {
        seen.set(Some((format, bytes.to_vec())));
        Some(pixels(1, 1, PixelLayout::Luma8, vec![bytes[0]]))
    });
    assert_eq!(seen.take(), Some((ImageFormat::Jpeg, vec![10u8, 20, 30])));
    let image = r.unwrap();
    assert_eq!(image.data(), &vec![10u8]);
    assert_eq!(image.descriptor().format, TextureFormat::R8Unorm);
}

#[test]
fn decode_does_not_call_the_codec_without_a_selected_format() {
    let calls = Cell::new(0u32);
    let codec = |_: ImageFormat, _: &[u8]| {
        calls.set(calls.get() + 1);
        None
    };
    let r = decode(&[1], "gif", true, &CompiledFormats::all(), &codec);
    assert_eq!(r.err(), Some(DecodeError::UnsupportedFormat));
    let r = decode(&[1], "png", true, &CompiledFormats::none(), &codec);
    assert_eq!(r.err(), Some(DecodeError::UnsupportedFormat));
    let r = decode(&[], "png", true, &CompiledFormats::all(), &codec);
    assert_eq!(r.err(), Some(DecodeError::CorruptData));
    assert_eq!(calls.get(), 0);
    let r = decode(&[1], "png", true, &CompiledFormats::all(), &codec);
    assert_eq!(r.err(), Some(DecodeError::CorruptData));
    assert_eq!(calls.get(), 1);
}

#[test]
fn decode_two_by_two_rgba8() {
    let file: Vec<u8> = (100u8..116).collect();
    let r = decode(&file, "png", true, &CompiledFormats::all(), |_, bytes| {
        Some(pixels(2, 2, PixelLayout::Rgba8, bytes.to_vec()))
    });
    let image = r.unwrap();
    assert_eq!(image.extent(), Extent { width: 2, height: 2 });
    assert_eq!(image.byte_len(), 16);
    assert_eq!(image.data(), &file);
}

#[test]
fn decode_reports_what_the_pixels_are_rejected_for() {
    let all = CompiledFormats::all();
    let r = decode(&[1], "bmp", true, &all, |_, _| Some(pixels(0, 0, PixelLayout::Rgba8, Vec::new())));
    assert_eq!(r.err(), Some(DecodeError::InvalidDimensions));
    let r = decode(&[1], "bmp", true, &all, |_, _| Some(pixels(1, 1, PixelLayout::Indexed8, vec![0])));
    assert_eq!(r.err(), Some(DecodeError::UnsupportedFormat));
}
