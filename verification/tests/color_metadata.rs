//! Color metadata inspection of sources written by the `image` encoders.

use std::io::Cursor;

use arborui::decode::{inspect, ColorError, DecodeError, DecodeErrorKind, SourceFormat, Transfer};
use arborui::decode_plan::{
    check_color_profile, check_decoder_bytes, plan_decode, DecodePlan, ImageCodec,
};
use arborui::image::MAX_IMAGE_BYTES;
use image::codecs::ico::{IcoEncoder, IcoFrame};
use image::{DynamicImage, ImageFormat};

fn encode(format: ImageFormat) -> Vec<u8> {
    let source = image::RgbaImage::from_raw(2, 1, vec![10, 20, 30, 40, 200, 180, 160, u8::MAX])
        .expect("two RGBA pixels");
    let mut encoded = Cursor::new(Vec::new());
    DynamicImage::ImageRgba8(source)
        .write_to(&mut encoded, format)
        .expect("encodable test image");
    encoded.into_inner()
}

fn insert_png_chunk(encoded: &mut Vec<u8>, kind: [u8; 4], data: &[u8]) {
    // Color chunks precede IDAT, immediately after the fixed-size IHDR.
    encoded.splice(33..33, png_chunk(kind, data));
}

fn png_chunk(kind: [u8; 4], data: &[u8]) -> Vec<u8> {
    let mut chunk = u32::try_from(data.len())
        .expect("test chunk length fits u32")
        .to_be_bytes()
        .to_vec();
    chunk.extend_from_slice(&kind);
    chunk.extend_from_slice(data);
    let mut crc = u32::MAX;
    for byte in &chunk[4..] {
        crc ^= u32::from(*byte);
        for _ in 0..8 {
            crc = (crc >> 1) ^ (0xedb8_8320 & 0_u32.wrapping_sub(crc & 1));
        }
    }
    chunk.extend_from_slice(&(!crc).to_be_bytes());
    chunk
}

fn failure_kind(result: Result<Transfer, ColorError>) -> DecodeErrorKind {
    DecodeError::color(result.expect_err("color metadata must be refused")).kind()
}

fn ico(images: Vec<Vec<u8>>) -> Vec<u8> {
    let frames = images
        .into_iter()
        .map(|image| {
            IcoFrame::with_encoded(image, 2, 1, image::ExtendedColorType::Rgba8)
                .expect("valid icon frame")
        })
        .collect::<Vec<_>>();
    let mut encoded = Vec::new();
    IcoEncoder::new(&mut encoded)
        .encode_images(&frames)
        .expect("encodable icon");
    encoded
}

#[test]
fn rejects_unsupported_png_color_metadata() {
    for (kind, data) in [
        (*b"gAMA", 50_000_u32.to_be_bytes().to_vec()),
        (*b"gAMA", 45_455_u32.to_be_bytes().to_vec()),
        (*b"cHRM", vec![0; 32]),
        (*b"cICP", vec![9, 16, 0, 1]),
        (*b"cICP", vec![1, 13, 0, 0]),
        (*b"cICP", vec![1, 13, 1, 1]),
        (*b"iCCP", vec![0; 4]),
        (*b"mDCV", vec![0; 24]),
        (*b"cLLI", vec![0; 8]),
    ] {
        let mut encoded = encode(ImageFormat::Png);
        insert_png_chunk(&mut encoded, kind, &data);
        assert_eq!(
            failure_kind(inspect(&encoded, SourceFormat::Png)),
            DecodeErrorKind::Unsupported,
            "{kind:?}"
        );
    }
}

#[test]
fn malformed_color_headers_return_invalid_data() {
    for (kind, data) in [
        (*b"gAMA", vec![0; 4]),
        (*b"sRGB", vec![4]),
        (*b"gAMA", vec![1]),
    ] {
        let mut encoded = encode(ImageFormat::Png);
        insert_png_chunk(&mut encoded, kind, &data);
        assert_eq!(
            failure_kind(inspect(&encoded, SourceFormat::Png)),
            DecodeErrorKind::InvalidData
        );
    }
    let mut encoded = encode(ImageFormat::Png);
    insert_png_chunk(&mut encoded, *b"gAMA", &100_000_u32.to_be_bytes());
    insert_png_chunk(&mut encoded, *b"gAMA", &100_000_u32.to_be_bytes());
    assert_eq!(
        failure_kind(inspect(&encoded, SourceFormat::Png)),
        DecodeErrorKind::InvalidData
    );
    let mut encoded = encode(ImageFormat::Png);
    insert_png_chunk(&mut encoded, *b"gAMA", &100_000_u32.to_be_bytes());
    encoded[45] ^= 1;
    assert_eq!(
        failure_kind(inspect(&encoded, SourceFormat::Png)),
        DecodeErrorKind::InvalidData
    );
    let mut encoded = encode(ImageFormat::Qoi);
    encoded[13] = 2;
    assert_eq!(
        failure_kind(inspect(&encoded, SourceFormat::Qoi)),
        DecodeErrorKind::InvalidData
    );
}

#[test]
fn png_metadata_precedence_and_srgb_chromaticities() {
    let mut encoded = encode(ImageFormat::Png);
    let chromaticities = [
        31_270_u32, 32_900, 64_000, 33_000, 30_000, 60_000, 15_000, 6_000,
    ]
    .into_iter()
    .flat_map(u32::to_be_bytes)
    .collect::<Vec<_>>();
    insert_png_chunk(&mut encoded, *b"cHRM", &chromaticities);
    assert_eq!(inspect(&encoded, SourceFormat::Png), Ok(Transfer::Srgb));

    let mut encoded = encode(ImageFormat::Png);
    insert_png_chunk(&mut encoded, *b"gAMA", &50_000_u32.to_be_bytes());
    insert_png_chunk(&mut encoded, *b"cHRM", &[0; 32]);
    insert_png_chunk(&mut encoded, *b"sRGB", &[0]);
    assert_eq!(inspect(&encoded, SourceFormat::Png), Ok(Transfer::Srgb));
    insert_png_chunk(&mut encoded, *b"cICP", &[1, 8, 0, 1]);
    assert_eq!(inspect(&encoded, SourceFormat::Png), Ok(Transfer::Linear));
    insert_png_chunk(&mut encoded, *b"iCCP", &[0; 4]);
    assert_eq!(
        failure_kind(inspect(&encoded, SourceFormat::Png)),
        DecodeErrorKind::Unsupported
    );
}

#[test]
fn source_color_metadata_preserves_alpha_and_srgb_controls() {
    let mut encoded = encode(ImageFormat::Png);
    assert_eq!(inspect(&encoded, SourceFormat::Png), Ok(Transfer::Srgb));
    insert_png_chunk(&mut encoded, *b"gAMA", &100_000_u32.to_be_bytes());
    assert_eq!(inspect(&encoded, SourceFormat::Png), Ok(Transfer::Linear));
    // PNG sRGB takes precedence over the lower-priority gAMA chunk.
    insert_png_chunk(&mut encoded, *b"sRGB", &[0]);
    assert_eq!(inspect(&encoded, SourceFormat::Png), Ok(Transfer::Srgb));
}

#[test]
fn ico_color_metadata_matches_the_selected_entry() {
    let srgb = encode(ImageFormat::Png);
    let mut linear = srgb.clone();
    insert_png_chunk(&mut linear, *b"gAMA", &100_000_u32.to_be_bytes());
    for (images, expected) in [
        (vec![srgb.clone(), linear.clone(), srgb.clone()], Transfer::Srgb),
        (vec![srgb.clone(), srgb.clone(), linear.clone()], Transfer::Linear),
    ] {
        assert_eq!(inspect(&ico(images), SourceFormat::Ico), Ok(expected));
    }
    insert_png_chunk(&mut linear, *b"iCCP", &[0; 4]);
    assert_eq!(
        failure_kind(inspect(&ico(vec![linear]), SourceFormat::Ico)),
        DecodeErrorKind::Unsupported
    );
}

#[test]
fn rejects_color_declarations_hidden_by_other_codecs() {
    let mut bmp = encode(ImageFormat::Bmp);
    assert_eq!(&bmp[70..74], &0x7352_4742_u32.to_le_bytes());
    assert_eq!(inspect(&bmp, SourceFormat::Bmp), Ok(Transfer::Srgb));
    for color in [0_u32, 0x4d42_4544, 0x4c49_4e4b] {
        bmp[70..74].copy_from_slice(&color.to_le_bytes());
        assert_eq!(
            failure_kind(inspect(&bmp, SourceFormat::Bmp)),
            DecodeErrorKind::Unsupported
        );
    }
    let mut tga = encode(ImageFormat::Tga);
    assert_eq!(inspect(&tga, SourceFormat::Tga), Ok(Transfer::Srgb));
    tga.extend_from_slice(&1_u32.to_le_bytes());
    tga.extend_from_slice(&0_u32.to_le_bytes());
    tga.extend_from_slice(b"TRUEVISION-XFILE.\0");
    assert_eq!(
        failure_kind(inspect(&tga, SourceFormat::Tga)),
        DecodeErrorKind::Unsupported
    );

    let mut gif = encode(ImageFormat::Gif);
    assert_eq!(inspect(&gif, SourceFormat::Gif), Ok(Transfer::Srgb));
    let offset = 13
        + if gif[10] & 0x80 == 0 {
            0
        } else {
            3 * (2_usize << (gif[10] & 7))
        };
    gif.splice(
        offset..offset,
        b"\x21\xff\x0bICCRGBG1012\x01\0\0".iter().copied(),
    );
    assert_eq!(
        failure_kind(inspect(&gif, SourceFormat::Gif)),
        DecodeErrorKind::Unsupported
    );

    for tag in [301_u16, 318, 319, 342, 532, 34675] {
        let mut tiff = encode(ImageFormat::Tiff);
        assert_eq!(&tiff[..2], b"II");
        let directory = u32::from_le_bytes(tiff[4..8].try_into().expect("four bytes")) as usize;
        // Replace the first tag identity, without ever reading its value.
        tiff[directory + 2..directory + 4].copy_from_slice(&tag.to_le_bytes());
        assert_eq!(
            failure_kind(inspect(&tiff, SourceFormat::Tiff)),
            DecodeErrorKind::Unsupported
        );
    }
}

#[test]
fn oversized_png_profile_is_rejected_before_reading_its_payload() {
    let mut png = encode(ImageFormat::Png);
    png.truncate(33);
    png.extend_from_slice(&u32::try_from(MAX_IMAGE_BYTES + 1).expect("fits").to_be_bytes());
    png.extend_from_slice(b"iCCP");
    let ico = ico(vec![png.clone()]);
    for (encoded, format) in [(png, SourceFormat::Png), (ico, SourceFormat::Ico)] {
        // No profile payload is present: reading it would reach the end.
        assert_eq!(
            failure_kind(inspect(&encoded, format)),
            DecodeErrorKind::LimitExceeded
        );
    }
}

#[test]
fn pnm_and_other_formats_need_no_inspection() {
    assert_eq!(inspect(b"P6\n1 1\n255\n\x80\x80\x80", SourceFormat::Pnm), Ok(Transfer::Bt709));
    assert_eq!(inspect(&encode(ImageFormat::Jpeg), SourceFormat::Other), Ok(Transfer::Srgb));
}

#[test]
fn decode_plans_sniff_formats_and_fall_back_to_tga_headers() {
    let png = encode(ImageFormat::Png);
    assert_eq!(
        plan_decode(&png).expect("plan"),
        DecodePlan { format: Some(ImageCodec::Png), transfer: Transfer::Srgb }
    );
    let tga = encode(ImageFormat::Tga);
    assert_eq!(plan_decode(&tga).expect("plan").format, Some(ImageCodec::Tga));
    let webp = encode(ImageFormat::WebP);
    assert_eq!(plan_decode(&webp).expect("plan").format, Some(ImageCodec::WebP));
    let jpeg = encode(ImageFormat::Jpeg);
    assert_eq!(plan_decode(&jpeg).expect("plan").format, Some(ImageCodec::Other));
    assert_eq!(
        plan_decode(b"not an image").expect("plan"),
        DecodePlan { format: None, transfer: Transfer::Srgb }
    );
    assert_eq!(
        plan_decode(b"P6\n1 1\n255\n\x80\x80\x80").expect("plan").transfer,
        Transfer::Bt709
    );
    let mut linear = encode(ImageFormat::Png);
    insert_png_chunk(&mut linear, *b"gAMA", &100_000_u32.to_be_bytes());
    assert_eq!(plan_decode(&linear).expect("plan").transfer, Transfer::Linear);
    let mut icc = encode(ImageFormat::Png);
    insert_png_chunk(&mut icc, *b"iCCP", &[0; 4]);
    assert_eq!(
        plan_decode(&icc).expect_err("profile refused").kind(),
        DecodeErrorKind::Unsupported
    );
}

#[test]
fn decoder_allocations_beyond_the_limit_are_refused() {
    assert!(check_decoder_bytes(MAX_IMAGE_BYTES as u64).is_ok());
    let error = check_decoder_bytes(MAX_IMAGE_BYTES as u64 + 1).expect_err("too large");
    assert_eq!(error.kind(), DecodeErrorKind::LimitExceeded);
    assert_eq!(
        error.text(),
        format!(
            "decoder requires {} bytes, exceeding the {MAX_IMAGE_BYTES}-byte limit",
            MAX_IMAGE_BYTES + 1
        )
    );
}

#[test]
fn embedded_profiles_are_refused_by_codec() {
    assert!(check_color_profile(Some(ImageCodec::Png), false).is_ok());
    let webp = check_color_profile(Some(ImageCodec::WebP), true).expect_err("refused");
    assert_eq!(webp.kind(), DecodeErrorKind::Unsupported);
    assert_eq!(
        webp.text(),
        "unsupported image color metadata: \
         The decoder does not support the format feature WebP ICC profiles"
    );
    let other = check_color_profile(Some(ImageCodec::Other), true).expect_err("refused");
    assert!(other.text().ends_with("feature ICC profiles"));
}
